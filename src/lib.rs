//! Building a single tar archive out of a file, a symlink or a directory tree:
//! path handling, tree walking, entry policy, collision-safe naming and the
//! checks made on a finished archive. The filesystem itself is reached by the
//! caller, which hands this library plain values.
pub mod entry;
pub mod error;
pub mod naming;
pub mod options;
pub mod paths;
pub mod validate;
pub mod walk;

pub use entry::{plan_archive, plan_entry, EntryMeta, EntryPlan};
pub use error::AthenaError;
pub use options::Options;
pub use paths::get_inp_path_only;
pub use validate::{answer, archive, input, output, output_plan, parse_reply, OutputPlan};
pub use walk::{DirEntry, NodeKind, Walker};
