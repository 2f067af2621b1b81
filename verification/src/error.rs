//! Errors raised by the engine and its data model.

use vstd::prelude::*;

verus! {

/// Every failure the engine itself can surface.
///
/// Domain errors returned by a decision's `act` are not here: they belong to
/// the decision's own error type, which must be able to absorb an engine
/// `Error` (see `Act::stream_err`).
#[derive(Clone, Copy, Debug, PartialEq, Eq, Structural)]
pub enum Error {
    /// An identifier was empty or held a character outside `[a-z][a-z0-9_]*`.
    InvalidIdentifier,
    /// A tag's prefix was not a valid identifier, or its value was empty.
    InvalidTag,
    /// A selector was built from an empty specifier set, or with an empty tag
    /// filter set, or a selection was built from no selectors.
    InvalidSelector,
    /// An event payload was empty after encoding.
    InvalidData,
    /// A codec could not encode a value.
    Serialization,
    /// A codec could not decode a payload.
    Deserialization,
    /// `decode` was asked for a kind that differs from the stored event's
    /// identifier.
    IdentifierMismatch,
    /// The append condition was violated: an event matching the commit
    /// selection was persisted past the last observed position.
    ConcurrencyConflict,
}

impl Error {
    /// A short diagnostic name for the error.
    pub fn describe(&self) -> (r: &'static str)
        ensures
            r@.len() > 0,
    {
        proof {
            reveal_strlit("invalid identifier");
            reveal_strlit("invalid tag");
            reveal_strlit("invalid selector");
            reveal_strlit("invalid data");
            reveal_strlit("serialization error");
            reveal_strlit("deserialization error");
            reveal_strlit("event identifier mismatch");
            reveal_strlit("concurrency conflict");
        }
        match self {
            Error::InvalidIdentifier => "invalid identifier",
            Error::InvalidTag => "invalid tag",
            Error::InvalidSelector => "invalid selector",
            Error::InvalidData => "invalid data",
            Error::Serialization => "serialization error",
            Error::Deserialization => "deserialization error",
            Error::IdentifierMismatch => "event identifier mismatch",
            Error::ConcurrencyConflict => "concurrency conflict",
        }
    }
}

} // verus!
