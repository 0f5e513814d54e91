//! What can go wrong in a run.
use vstd::prelude::*;

verus! {

/// The ways a run fails.
#[derive(Debug, Clone, Copy, PartialEq, Eq, Structural)]
pub enum AthenaError {
    /// The input path does not exist.
    InputNotFound,
    /// The output directory does not exist and was not to be created.
    OutputAborted,
    /// No archive was found where it was written.
    NotWritten,
    /// The archive was written empty: no entry was processed.
    Empty,
    /// The archive does not start as a gzip stream should.
    Invalid,
    /// An entry does not lie under the directory its name is taken from.
    OutsideInput,
}

impl AthenaError {
    /// The one-line message shown for this error.
    pub fn message(&self) -> (r: &'static str)
        ensures
            *self == AthenaError::InputNotFound ==> r@ == "Specified file or directory does not exist"@,
            *self == AthenaError::OutputAborted ==> r@ == "Output directory does not exist"@,
            *self == AthenaError::NotWritten ==> r@ == "Failed to write archive"@,
            *self == AthenaError::Empty ==> r@ == "No files were processed"@,
            *self == AthenaError::Invalid ==> r@ == "Invalid archive"@,
            *self == AthenaError::OutsideInput ==> r@ == "Entry lies outside the input"@,
    {
        match self {
            AthenaError::InputNotFound => "Specified file or directory does not exist",
            AthenaError::OutputAborted => "Output directory does not exist",
            AthenaError::NotWritten => "Failed to write archive",
            AthenaError::Empty => "No files were processed",
            AthenaError::Invalid => "Invalid archive",
            AthenaError::OutsideInput => "Entry lies outside the input",
        }
    }

    /// Whether the archive that failed its check with this error is to be
    /// deleted.
    pub fn removes_archive(&self) -> (r: bool)
        ensures
            r == (*self == AthenaError::Empty || *self == AthenaError::Invalid),
    {
        match self {
            AthenaError::Empty => true,
            AthenaError::Invalid => true,
            _ => false,
        }
    }
}

} // verus!
