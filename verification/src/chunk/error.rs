//! Errors of the chunk data path.

use vstd::prelude::*;

use crate::diskio::DiskioError;

verus! {

#[derive(Debug, Clone, PartialEq, Eq)]
pub enum IoError {
    AllocationFailed(String),
    WriteFailed(String),
    SourceRead(String),
    Topology(String),
    EcEncodeFailed(String),
    MemoryBudgetExhausted,
    Finished,
    Internal(String),
}

impl IoError {
    pub open spec fn is_internal(self, t: Seq<char>) -> bool {
        self matches IoError::Internal(s) && s@ == t
    }

    pub open spec fn is_topology(self, t: Seq<char>) -> bool {
        self matches IoError::Topology(s) && s@ == t
    }

    pub open spec fn is_write_failed(self, t: Seq<char>) -> bool {
        self matches IoError::WriteFailed(s) && s@ == t
    }

    pub open spec fn is_allocation_failed(self, t: Seq<char>) -> bool {
        self matches IoError::AllocationFailed(s) && s@ == t
    }

    pub open spec fn is_ec_failed(self, t: Seq<char>) -> bool {
        self matches IoError::EcEncodeFailed(s) && s@ == t
    }

    /// What the error says.
    pub open spec fn text(self) -> Seq<char> {
        match self {
            IoError::AllocationFailed(t) => "chunk allocation failed: "@ + t@,
            IoError::WriteFailed(t) => "disk write failed: "@ + t@,
            IoError::SourceRead(t) => "source read failed: "@ + t@,
            IoError::Topology(t) => "invalid disk IO topology: "@ + t@,
            IoError::EcEncodeFailed(t) => "EC encode failed: "@ + t@,
            IoError::MemoryBudgetExhausted => "memory budget exhausted"@,
            IoError::Finished => "writer already finished"@,
            IoError::Internal(t) => "internal error: "@ + t@,
        }
    }

    pub fn message(&self) -> (s: String)
        ensures
            s@ == self.text(),
    {
        match self {
            IoError::AllocationFailed(t) => prefixed("chunk allocation failed: ", t.as_str()),
            IoError::WriteFailed(t) => prefixed("disk write failed: ", t.as_str()),
            IoError::SourceRead(t) => prefixed("source read failed: ", t.as_str()),
            IoError::Topology(t) => prefixed("invalid disk IO topology: ", t.as_str()),
            IoError::EcEncodeFailed(t) => prefixed("EC encode failed: ", t.as_str()),
            IoError::MemoryBudgetExhausted => "memory budget exhausted".to_owned(),
            IoError::Finished => "writer already finished".to_owned(),
            IoError::Internal(t) => prefixed("internal error: ", t.as_str()),
        }
    }

    pub fn internal(text: &str) -> (e: IoError)
        ensures
            e.is_internal(text@),
    {
        IoError::Internal(text.to_owned())
    }

    pub fn allocation_failed(text: &str) -> (e: IoError)
        ensures
            e.is_allocation_failed(text@),
    {
        IoError::AllocationFailed(text.to_owned())
    }

    pub fn write_failed(text: &str) -> (e: IoError)
        ensures
            e.is_write_failed(text@),
    {
        IoError::WriteFailed(text.to_owned())
    }

    /// A failed disk I/O call is a failed write.
    pub fn from_diskio(e: &DiskioError) -> (r: IoError)
        ensures
            r.is_write_failed(e.text()),
    {
        IoError::WriteFailed(e.message())
    }
}

/// `text` with `prefix` before it.
pub fn prefixed(prefix: &str, text: &str) -> (s: String)
    ensures
        s@ == prefix@ + text@,
{
    let mut s = prefix.to_owned();
    s.append(text);
    s
}

/// What an error says: its kind, then the details.
pub proof fn lemma_error_texts(t: String)
    ensures
        IoError::AllocationFailed(t).text() == "chunk allocation failed: "@ + t@,
        IoError::WriteFailed(t).text() == "disk write failed: "@ + t@,
        IoError::SourceRead(t).text() == "source read failed: "@ + t@,
        IoError::Topology(t).text() == "invalid disk IO topology: "@ + t@,
        IoError::EcEncodeFailed(t).text() == "EC encode failed: "@ + t@,
        IoError::Internal(t).text() == "internal error: "@ + t@,
        IoError::MemoryBudgetExhausted.text() == "memory budget exhausted"@,
        IoError::Finished.text() == "writer already finished"@,
{
}

/// Errors are told apart by their kinds.
pub proof fn lemma_error_kinds(e: IoError, t: Seq<char>, u: Seq<char>)
    ensures
        e.is_internal(t) ==> e is Internal,
        e.is_topology(t) ==> e is Topology,
        e.is_write_failed(t) ==> e is WriteFailed,
        e.is_allocation_failed(t) ==> e is AllocationFailed,
        e.is_ec_failed(t) ==> e is EcEncodeFailed,
        e.is_internal(t) && e.is_internal(u) ==> t == u,
        e.is_topology(t) && e.is_topology(u) ==> t == u,
        e.is_write_failed(t) && e.is_write_failed(u) ==> t == u,
        e.is_allocation_failed(t) && e.is_allocation_failed(u) ==> t == u,
        e.is_ec_failed(t) && e.is_ec_failed(u) ==> t == u,
{
}

} // verus!
