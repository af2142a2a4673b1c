//! Errors of the chunk database's client.

use vstd::prelude::*;

verus! {

#[derive(Debug, Clone, PartialEq, Eq)]
pub enum ChunkdbClientError {
    Unreachable(String),
    Rpc(String),
    InvalidArgument(String),
    NotFound(String),
    AlreadyExists(String),
    FailedPrecondition(String),
    Aborted(String),
    Internal(String),
    Unavailable(String),
    NotMyRange(String),
}

impl ChunkdbClientError {
    /// The text that comes with the error.
    pub open spec fn text(self) -> Seq<char> {
        match self {
            ChunkdbClientError::Unreachable(t) => t@,
            ChunkdbClientError::Rpc(t) => t@,
            ChunkdbClientError::InvalidArgument(t) => t@,
            ChunkdbClientError::NotFound(t) => t@,
            ChunkdbClientError::AlreadyExists(t) => t@,
            ChunkdbClientError::FailedPrecondition(t) => t@,
            ChunkdbClientError::Aborted(t) => t@,
            ChunkdbClientError::Internal(t) => t@,
            ChunkdbClientError::Unavailable(t) => t@,
            ChunkdbClientError::NotMyRange(t) => t@,
        }
    }

    pub fn is_not_my_range(&self) -> (r: bool)
        ensures
            r == (self is NotMyRange),
    {
        match self {
            ChunkdbClientError::NotMyRange(_) => true,
            _ => false,
        }
    }
}

/// An error's text is the one that came with it.
pub proof fn lemma_error_keeps_text(t: String)
    ensures
        ChunkdbClientError::Unreachable(t).text() == t@,
        ChunkdbClientError::Rpc(t).text() == t@,
        ChunkdbClientError::InvalidArgument(t).text() == t@,
        ChunkdbClientError::NotFound(t).text() == t@,
        ChunkdbClientError::AlreadyExists(t).text() == t@,
        ChunkdbClientError::FailedPrecondition(t).text() == t@,
        ChunkdbClientError::Aborted(t).text() == t@,
        ChunkdbClientError::Internal(t).text() == t@,
        ChunkdbClientError::Unavailable(t).text() == t@,
        ChunkdbClientError::NotMyRange(t).text() == t@,
{
}

} // verus!
