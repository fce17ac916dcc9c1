//! The kinds of failure and the exit status that reports each.

use vstd::prelude::*;

verus! {

/// The kinds of failure that end an invocation.
#[derive(Debug, Clone, Copy, PartialEq, Eq, Structural)]
pub enum ErrorKind {
    /// The stored table could not be read or written, for another reason than its absence.
    Io,
    /// No alias of the name is stored.
    AliasNotFound,
    /// The command holds `**` and no substitutions were given.
    UnresolvedPlaceholder,
    /// The arguments ask for nothing that can be done.
    InvalidUsage,
    /// The shell could not be started.
    ChildProcess,
}

/// The exit status that reports a kind of failure. Status 0 is kept for success.
pub open spec fn exit_code_of(kind: ErrorKind) -> u8 {
    match kind {
        ErrorKind::InvalidUsage => 2,
        ErrorKind::AliasNotFound => 3,
        ErrorKind::UnresolvedPlaceholder => 4,
        ErrorKind::Io => 5,
        ErrorKind::ChildProcess => 6,
    }
}

impl ErrorKind {
    /// The exit status that reports this kind of failure: never 0, and another for each
    /// kind.
    pub fn exit_code(self) -> (code: u8)
        ensures
            code == exit_code_of(self),
            code != 0,
    {
        match self {
            ErrorKind::InvalidUsage => 2,
            ErrorKind::AliasNotFound => 3,
            ErrorKind::UnresolvedPlaceholder => 4,
            ErrorKind::Io => 5,
            ErrorKind::ChildProcess => 6,
        }
    }
}

/// Two kinds of failure with one exit status are the same kind.
pub proof fn lemma_exit_codes_distinct(a: ErrorKind, b: ErrorKind)
    requires
        exit_code_of(a) == exit_code_of(b),
    ensures
        a == b,
{
}

} // verus!
