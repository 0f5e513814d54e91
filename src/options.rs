//! The settings of one run.
use vstd::prelude::*;

verus! {

/// The settings of one run, fixed once the input and output are validated.
#[derive(Clone, Debug)]
pub struct Options {
    pub verbose: bool,
    /// Reserved: nothing is uploaded.
    pub upload: bool,
    pub compression: bool,
    pub input_path: String,
    pub output_path: String,
}

} // verus!
