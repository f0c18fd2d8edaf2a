//! The errors of the query server.
use vstd::prelude::*;

verus! {

/// What an error is about. The classes that the server itself tells apart or raises have a
/// variant of their own; every other class is known by its number.
#[derive(Clone, Copy, Debug, PartialEq, Eq, Structural)]
pub enum ErrorClass {
    /// The query was aborted.
    AbortedQuery,
    /// The session was aborted.
    AbortedSession,
    /// The server does not do what was asked.
    Unimplemented,
    /// A file does not have the schema of its table.
    TableSchemaMismatch,
    /// The server could not do its own part.
    Internal,
    /// Any other class.
    Other(u16),
}

/// An error of the query server.
#[derive(Debug, PartialEq, Eq)]
pub struct ErrorCode {
    /// What the error is about.
    pub class: ErrorClass,
    /// The text of the error, without its class.
    pub message: String,
}

impl ErrorCode {
    /// Whether the error says that the query or the session was aborted.
    pub open spec fn spec_is_abort(self) -> bool {
        self.class == ErrorClass::AbortedQuery || self.class == ErrorClass::AbortedSession
    }

    /// Whether the error says that the query or the session was aborted.
    pub fn is_abort(&self) -> (abort: bool)
        ensures
            abort == self.spec_is_abort(),
    {
        self.class == ErrorClass::AbortedQuery || self.class == ErrorClass::AbortedSession
    }
}

} // verus!
