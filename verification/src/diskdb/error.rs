//! Errors of the disk database's client.

use vstd::prelude::*;

use crate::chunk::error::prefixed;

verus! {

#[derive(Debug, Clone, PartialEq, Eq)]
pub enum DiskdbClientError {
    Unreachable(String),
    Rpc(String),
    NoSpace(String),
    NotOwner(String),
}

impl DiskdbClientError {
    pub open spec fn is_rpc(self, t: Seq<char>) -> bool {
        self matches DiskdbClientError::Rpc(s) && s@ == t
    }

    pub open spec fn is_unreachable(self, t: Seq<char>) -> bool {
        self matches DiskdbClientError::Unreachable(s) && s@ == t
    }

    pub fn rpc(text: &str) -> (e: DiskdbClientError)
        ensures
            e.is_rpc(text@),
    {
        DiskdbClientError::Rpc(text.to_owned())
    }

    /// The error for a failed transport call, which says `detail`: one that
    /// may be retried counts as an unreachable service.
    pub fn from_transport(retryable: bool, detail: &str) -> (e: DiskdbClientError)
        ensures
            retryable ==> e.is_unreachable("rpc transient: "@ + detail@),
            !retryable ==> e.is_rpc("rpc error: "@ + detail@),
    {
        if retryable {
            DiskdbClientError::Unreachable(prefixed("rpc transient: ", detail))
        } else {
            DiskdbClientError::Rpc(prefixed("rpc error: ", detail))
        }
    }
}

/// How the service answered.
#[derive(Debug, Clone, Copy, PartialEq, Eq, Structural)]
pub enum FbDiskdbRetCode {
    Success,
    NoSpace,
    NotOwner,
    DiskNotFound,
    DiskGroupNotFound,
    Degraded,
    Unavailable,
    NotFound,
    InvalidArgument,
    Internal,
    Other,
}

/// The message of an answer that failed.
pub open spec fn failure_text(m: Option<String>) -> Seq<char> {
    match m {
        Some(t) => t@,
        None => "unknown error"@,
    }
}

/// The error that a return code stands for.
pub open spec fn is_code_error(code: FbDiskdbRetCode, msg: Seq<char>, e: DiskdbClientError) -> bool {
    match code {
        FbDiskdbRetCode::Success => false,
        FbDiskdbRetCode::NoSpace => e matches DiskdbClientError::NoSpace(s) && s@ == msg,
        FbDiskdbRetCode::NotOwner => e matches DiskdbClientError::NotOwner(s) && s@ == msg,
        FbDiskdbRetCode::DiskNotFound => e.is_rpc("disk not found: "@ + msg),
        FbDiskdbRetCode::DiskGroupNotFound => e.is_rpc("disk-group not found: "@ + msg),
        FbDiskdbRetCode::Degraded => e.is_rpc("degraded: "@ + msg),
        FbDiskdbRetCode::Unavailable => e.is_unreachable("unavailable: "@ + msg),
        FbDiskdbRetCode::NotFound => e.is_rpc("not found: "@ + msg),
        FbDiskdbRetCode::InvalidArgument => e.is_rpc("invalid argument: "@ + msg),
        FbDiskdbRetCode::Internal => e.is_rpc("internal: "@ + msg),
        FbDiskdbRetCode::Other => e.is_rpc("unknown error: "@ + msg),
    }
}

/// Success, or the error that the return code stands for.
pub fn check_ret_code(code: FbDiskdbRetCode, msg: &Option<String>) -> (r: Result<
    (),
    DiskdbClientError,
>)
    ensures
        match r {
            Ok(_) => code == FbDiskdbRetCode::Success,
            Err(e) => is_code_error(code, failure_text(*msg), e),
        },
{
    let msg = match msg {
        Some(t) => t.clone(),
        None => "unknown error".to_owned(),
    };
    match code {
        FbDiskdbRetCode::Success => Ok(()),
        FbDiskdbRetCode::NoSpace => Err(DiskdbClientError::NoSpace(msg)),
        FbDiskdbRetCode::NotOwner => Err(DiskdbClientError::NotOwner(msg)),
        FbDiskdbRetCode::DiskNotFound => Err(
            DiskdbClientError::Rpc(prefixed("disk not found: ", msg.as_str())),
        ),
        FbDiskdbRetCode::DiskGroupNotFound => Err(
            DiskdbClientError::Rpc(prefixed("disk-group not found: ", msg.as_str())),
        ),
        FbDiskdbRetCode::Degraded => Err(
            DiskdbClientError::Rpc(prefixed("degraded: ", msg.as_str())),
        ),
        FbDiskdbRetCode::Unavailable => Err(
            DiskdbClientError::Unreachable(prefixed("unavailable: ", msg.as_str())),
        ),
        FbDiskdbRetCode::NotFound => Err(
            DiskdbClientError::Rpc(prefixed("not found: ", msg.as_str())),
        ),
        FbDiskdbRetCode::InvalidArgument => Err(
            DiskdbClientError::Rpc(prefixed("invalid argument: ", msg.as_str())),
        ),
        FbDiskdbRetCode::Internal => Err(
            DiskdbClientError::Rpc(prefixed("internal: ", msg.as_str())),
        ),
        FbDiskdbRetCode::Other => Err(
            DiskdbClientError::Rpc(prefixed("unknown error: ", msg.as_str())),
        ),
    }
}

/// Every return code but success is an error: a lack of space and a wrong owner
/// are errors of their own, a service that is not available cannot be reached,
/// and the others are failed calls that say what went wrong, then the service's
/// message.
pub proof fn lemma_codes_are_errors(code: FbDiskdbRetCode, msg: Seq<char>, e: DiskdbClientError)
    ensures
        is_code_error(code, msg, e) ==> code !is Success,
        is_code_error(FbDiskdbRetCode::NoSpace, msg, e) ==> (e matches DiskdbClientError::NoSpace(
            s,
        ) && s@ == msg),
        is_code_error(FbDiskdbRetCode::NotOwner, msg, e) ==> (e matches DiskdbClientError::NotOwner(
            s,
        ) && s@ == msg),
        is_code_error(FbDiskdbRetCode::Unavailable, msg, e) ==> (e matches
            DiskdbClientError::Unreachable(s) && s@ == "unavailable: "@ + msg),
        is_code_error(FbDiskdbRetCode::DiskNotFound, msg, e) ==> (e matches DiskdbClientError::Rpc(
            s,
        ) && s@ == "disk not found: "@ + msg),
        is_code_error(FbDiskdbRetCode::DiskGroupNotFound, msg, e) ==> (e matches
            DiskdbClientError::Rpc(s) && s@ == "disk-group not found: "@ + msg),
        is_code_error(FbDiskdbRetCode::Degraded, msg, e) ==> (e matches DiskdbClientError::Rpc(s)
            && s@ == "degraded: "@ + msg),
        is_code_error(FbDiskdbRetCode::NotFound, msg, e) ==> (e matches DiskdbClientError::Rpc(s)
            && s@ == "not found: "@ + msg),
        is_code_error(FbDiskdbRetCode::InvalidArgument, msg, e) ==> (e matches
            DiskdbClientError::Rpc(s) && s@ == "invalid argument: "@ + msg),
        is_code_error(FbDiskdbRetCode::Internal, msg, e) ==> (e matches DiskdbClientError::Rpc(s)
            && s@ == "internal: "@ + msg),
        is_code_error(FbDiskdbRetCode::Other, msg, e) ==> (e matches DiskdbClientError::Rpc(s)
            && s@ == "unknown error: "@ + msg),
{
}

/// An answer that failed says why, or that it is not known.
pub proof fn lemma_failure_text(t: String)
    ensures
        failure_text(Some(t)) == t@,
        failure_text(None) == "unknown error"@,
{
}

/// Failed calls and services that cannot be reached are told apart.
pub proof fn lemma_error_kinds(e: DiskdbClientError, t: Seq<char>)
    ensures
        e.is_rpc(t) <==> (e matches DiskdbClientError::Rpc(s) && s@ == t),
        e.is_unreachable(t) <==> (e matches DiskdbClientError::Unreachable(s) && s@ == t),
{
}

} // verus!
