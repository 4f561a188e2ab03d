//! The ways a script or a path can be rejected.
use vstd::prelude::*;

verus! {

/// Why a script, a path or a time format was rejected.
#[derive(Clone, Copy, Debug, PartialEq, Eq, Structural)]
pub enum WemError {
    /// `def` is not followed by `:`.
    DefMissingColon,
    /// A variable name is not followed by `=`.
    MissingAssign,
    /// A `%NAME%` card names no declared variable.
    UndeclaredVariable,
    /// `dir` is not followed by `:`.
    DirMissingColon,
    /// `pre` is not followed by `:`.
    PreMissingColon,
    /// A file subcommand other than `pre`.
    UnknownFileSubcommand,
    /// A file subcommand is followed by neither `)` nor `,`.
    BadSubcommandSeparator,
    /// A quoted string stands where a file name should.
    LongFileName,
    /// `file` is not followed by `:`.
    FileMissingColon,
    /// `desc` is followed by `(`.
    DescSubcommand,
    /// `desc` is not followed by `:`.
    DescMissingColon,
    /// `dref` is not followed by `:`.
    DrefMissingColon,
    /// The script has no `dref`.
    NoDref,
    /// The path has no parent part.
    NoParentPath,
    /// The path holds no `/`.
    NoPathSeparator,
    /// The path has no file name.
    NoFileName,
    /// The time format cannot be rendered.
    InvalidTimeFormat,
    /// The script ends in the middle of a construct.
    UnexpectedEnd,
    /// A `%` card is never closed.
    UnclosedCard,
}

} // verus!
