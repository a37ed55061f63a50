//! The errors that name resolution can report.

use vstd::prelude::*;

verus! {

/// What went wrong.
#[derive(Debug, Clone, Copy, PartialEq, Eq, Structural)]
pub enum ErrorKind {
    /// A fully-qualified path was already bound to an earlier definition.
    RedefinedSymbol,
}

/// One reported failure. It carries no message text: formatting is left to
/// whoever presents the errors.
#[derive(Debug, Clone, Copy, PartialEq, Eq, Structural)]
pub struct Error {
    pub kind: ErrorKind,
}

impl Error {
    pub fn new(kind: ErrorKind) -> (e: Self)
        ensures
            e.kind == kind,
    {
        Error { kind }
    }
}

} // verus!
