//! The records of a parsed script, as the script writer uses them.
pub use crate::structure::{Actions, ExecInfo, VarInfo};
