//! Errors of console operations.

use vstd::prelude::*;

verus! {

/// Why a console operation was refused or failed.
#[derive(Debug, Clone, PartialEq, Eq)]
pub enum Error {
    /// The file system or a child process failed.
    Io(String),
    /// The recorded configuration is unusable.
    Config(String),
    /// The operation collides with what is recorded.
    Conflict { kind: String, id: String },
    /// Nothing of that kind and id is recorded.
    NotFound { kind: String, id: String },
    /// An input is out of range or refers to nothing.
    Validation { field: String, message: String },
    /// A node did not answer.
    NodeUnreachable { node_id: String, reason: String },
    /// A remote service refused or failed.
    UpstreamRpc { node_id: String, status: String },
    /// The operation needs something this context lacks.
    NotImplemented(String),
}

fn joined(a: &str, b: &str) -> (s: String)
    ensures
        s@ == a@ + b@,
{
    let mut s = a.to_owned();
    s.append(b);
    s
}

fn joined3(a: &str, b: &str, c: &str) -> (s: String)
    ensures
        s@ == a@ + b@ + c@,
{
    let mut s = joined(a, b);
    s.append(c);
    s
}

impl Error {
    pub open spec fn is_io(self, text: Seq<char>) -> bool {
        self matches Error::Io(t) && t@ == text
    }

    pub open spec fn is_config(self, text: Seq<char>) -> bool {
        self matches Error::Config(t) && t@ == text
    }

    pub open spec fn is_conflict(self, kind: Seq<char>, id: Seq<char>) -> bool {
        self matches Error::Conflict { kind: k, id: i } && k@ == kind && i@ == id
    }

    pub open spec fn is_not_found(self, kind: Seq<char>, id: Seq<char>) -> bool {
        self matches Error::NotFound { kind: k, id: i } && k@ == kind && i@ == id
    }

    pub open spec fn is_validation(self, field: Seq<char>, message: Seq<char>) -> bool {
        self matches Error::Validation { field: f, message: m } && f@ == field && m@ == message
    }

    pub open spec fn is_unreachable(self, node_id: Seq<char>, reason: Seq<char>) -> bool {
        self matches Error::NodeUnreachable { node_id: n, reason: r } && n@ == node_id && r@
            == reason
    }

    pub open spec fn is_upstream(self, node_id: Seq<char>, status: Seq<char>) -> bool {
        self matches Error::UpstreamRpc { node_id: n, status: s } && n@ == node_id && s@ == status
    }

    pub open spec fn is_not_implemented(self, text: Seq<char>) -> bool {
        self matches Error::NotImplemented(t) && t@ == text
    }

    /// What the error says.
    pub open spec fn text(self) -> Seq<char> {
        match self {
            Error::Io(t) => "I/O error: "@ + t@,
            Error::Config(t) => "configuration error: "@ + t@,
            Error::Conflict { kind, id } => kind@ + " conflict: "@ + id@,
            Error::NotFound { kind, id } => kind@ + " not found: "@ + id@,
            Error::Validation { field, message } => "invalid "@ + field@ + ": "@ + message@,
            Error::NodeUnreachable { node_id, reason } => "node "@ + node_id@ + " unreachable: "@
                + reason@,
            Error::UpstreamRpc { node_id, status } => "upstream "@ + node_id@ + " failed: "@
                + status@,
            Error::NotImplemented(t) => "not implemented: "@ + t@,
        }
    }

    pub fn message(&self) -> (s: String)
        ensures
            s@ == self.text(),
    {
        match self {
            Error::Io(t) => joined("I/O error: ", t.as_str()),
            Error::Config(t) => joined("configuration error: ", t.as_str()),
            Error::Conflict { kind, id } => joined3(kind.as_str(), " conflict: ", id.as_str()),
            Error::NotFound { kind, id } => joined3(kind.as_str(), " not found: ", id.as_str()),
            Error::Validation { field, message } => {
                let mut s = joined3("invalid ", field.as_str(), ": ");
                s.append(message.as_str());
                s
            },
            Error::NodeUnreachable { node_id, reason } => {
                let mut s = joined3("node ", node_id.as_str(), " unreachable: ");
                s.append(reason.as_str());
                s
            },
            Error::UpstreamRpc { node_id, status } => {
                let mut s = joined3("upstream ", node_id.as_str(), " failed: ");
                s.append(status.as_str());
                s
            },
            Error::NotImplemented(t) => joined("not implemented: ", t.as_str()),
        }
    }

    pub fn conflict(kind: &str, id: String) -> (e: Error)
        ensures
            e.is_conflict(kind@, id@),
    {
        Error::Conflict { kind: kind.to_owned(), id }
    }

    pub fn not_found(kind: &str, id: String) -> (e: Error)
        ensures
            e.is_not_found(kind@, id@),
    {
        Error::NotFound { kind: kind.to_owned(), id }
    }

    pub fn validation(field: &str, message: String) -> (e: Error)
        ensures
            e.is_validation(field@, message@),
    {
        Error::Validation { field: field.to_owned(), message }
    }

    pub fn unreachable(node_id: String, reason: String) -> (e: Error)
        ensures
            e.is_unreachable(node_id@, reason@),
    {
        Error::NodeUnreachable { node_id, reason }
    }

    pub fn upstream(node_id: &str, status: String) -> (e: Error)
        ensures
            e.is_upstream(node_id@, status@),
    {
        Error::UpstreamRpc { node_id: node_id.to_owned(), status }
    }
}

/// What each error says, word for word.
pub proof fn lemma_error_texts(e: Error, a: Seq<char>, b: Seq<char>)
    ensures
        e.is_io(a) ==> e.text() == "I/O error: "@ + a,
        e.is_config(a) ==> e.text() == "configuration error: "@ + a,
        e.is_conflict(a, b) ==> e.text() == a + " conflict: "@ + b,
        e.is_not_found(a, b) ==> e.text() == a + " not found: "@ + b,
        e.is_validation(a, b) ==> e.text() == "invalid "@ + a + ": "@ + b,
        e.is_unreachable(a, b) ==> e.text() == "node "@ + a + " unreachable: "@ + b,
        e.is_upstream(a, b) ==> e.text() == "upstream "@ + a + " failed: "@ + b,
        e.is_not_implemented(a) ==> e.text() == "not implemented: "@ + a,
{
}

/// An error is of the one kind that it was made as, and carries its parts in
/// their places.
pub proof fn lemma_error_kinds(a: String, b: String)
    ensures
        Error::Io(a).is_io(a@),
        Error::Config(a).is_config(a@),
        (Error::Conflict { kind: a, id: b }).is_conflict(a@, b@),
        (Error::NotFound { kind: a, id: b }).is_not_found(a@, b@),
        (Error::Validation { field: a, message: b }).is_validation(a@, b@),
        (Error::NodeUnreachable { node_id: a, reason: b }).is_unreachable(a@, b@),
        (Error::UpstreamRpc { node_id: a, status: b }).is_upstream(a@, b@),
        Error::NotImplemented(a).is_not_implemented(a@),
{
}

/// No error is of two kinds.
pub proof fn lemma_one_kind(
    e: Error,
    a: Seq<char>,
    b: Seq<char>,
)
    ensures
        e.is_io(a) ==> e is Io && e->Io_0@ == a,
        e.is_config(a) ==> e is Config && e->Config_0@ == a,
        e.is_conflict(a, b) ==> e is Conflict && e->Conflict_kind@ == a && e->Conflict_id@ == b,
        e.is_not_found(a, b) ==> e is NotFound && e->NotFound_kind@ == a && e->NotFound_id@ == b,
        e.is_validation(a, b) ==> e is Validation && e->field@ == a && e->message@ == b,
        e.is_unreachable(a, b) ==> e is NodeUnreachable && e->NodeUnreachable_node_id@ == a
            && e->reason@ == b,
        e.is_upstream(a, b) ==> e is UpstreamRpc && e->UpstreamRpc_node_id@ == a && e->status@ == b,
        e.is_not_implemented(a) ==> e is NotImplemented && e->NotImplemented_0@ == a,
{
}

} // verus!
