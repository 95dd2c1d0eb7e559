//! What can end a connection.

use vstd::prelude::*;

verus! {

/// The error of `glob::Pattern::new`: where in the pattern it arose, and why.
#[verifier::external_type_specification]
#[verifier::external_body]
pub struct ExPatternError(glob::PatternError);

/// Why a frame cannot be read.
#[derive(Debug, Clone, Copy, PartialEq, Eq, Structural)]
pub enum Malformed {
    /// A simple string other than `OK` and `PONG`.
    SimpleString,
    /// The text of an error is not valid UTF-8.
    Encoding,
    /// An aggregate as the key of a map or the member of a set.
    Member,
    /// Aggregates nested deeper than `MAX_DEPTH`.
    Nesting,
}

/// An error that is no reply: the connection on which it arises is closed.
#[derive(Debug)]
pub enum Error {
    /// The peer sent what the protocol has no place for.
    Protocol(Malformed),
    /// The pattern of a `KEYS` request does not compile.
    Glob(glob::PatternError),
}

} // verus!
