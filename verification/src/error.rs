//! Failure kinds shared by the document store, the tree cache, the position
//! mapper and the node path resolver.

use vstd::prelude::*;

verus! {

/// Everything that can go wrong while serving an editor request against the
/// in-memory document state.
#[derive(Debug, Clone, Copy, PartialEq, Eq, Structural)]
pub enum TyError {
    /// An `open` named a uri that is already open.
    AlreadyOpen,
    /// An operation named a uri that is not currently open.
    UnknownDocument,
    /// A change notification carried a version not strictly greater than the
    /// stored one; the change is dropped, never applied.
    StaleVersion,
    /// A query position named a line beyond the document's last line.
    PositionOutOfRange,
    /// An offset handed to the resolver lies outside the root node's span.
    OffsetOutOfRange,
    /// The parser crashed on this request; other documents stay valid.
    ParserPanic,
}

impl TyError {
    /// A short stable description, for transports that need a message.
    pub fn describe(&self) -> (r: &'static str)
        ensures
            r@.len() > 0,
    {
        let r = match self {
            TyError::AlreadyOpen => "document is already open",
            TyError::UnknownDocument => "document is not open",
            TyError::StaleVersion => "change notification is stale",
            TyError::PositionOutOfRange => "line is beyond the end of the document",
            TyError::OffsetOutOfRange => "offset lies outside the root span",
            TyError::ParserPanic => "the parser crashed",
        };
        proof {
            reveal_strlit("document is already open");
            reveal_strlit("document is not open");
            reveal_strlit("change notification is stale");
            reveal_strlit("line is beyond the end of the document");
            reveal_strlit("offset lies outside the root span");
            reveal_strlit("the parser crashed");
        }
        r
    }
}

} // verus!
