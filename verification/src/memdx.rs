//! What the key-value protocol reports of a failed operation, as far as this
//! crate looks into it.
use vstd::prelude::*;
use crate::text::{opt_text, same_opt_text, same_text};

verus! {

/// A status that the server answered with.
#[derive(Debug, Clone, Copy, PartialEq, Eq, Structural)]
pub enum Status {
    KeyNotFound,
    CollectionUnknown,
    ScopeUnknown,
    AuthError,
    Other(u16),
}

/// What a value is, as far as the server is told.
#[derive(Debug, Clone, Copy, PartialEq, Eq, Structural)]
pub enum DataTypeFlag {
    Raw,
    Json,
    Compressed,
    Other(u8),
}

/// A read of one part of a document.
#[derive(Debug, Clone, Copy)]
pub struct LookupInOp<'a> {
    pub op: u8,
    pub flags: u8,
    pub path: &'a [u8],
}

/// A change to one part of a document.
#[derive(Debug, Clone, Copy)]
pub struct MutateInOp<'a> {
    pub op: u8,
    pub flags: u8,
    pub path: &'a [u8],
    pub value: &'a [u8],
}

/// An operation of the protocol.
#[derive(Debug, Clone, Copy, PartialEq, Eq, Structural)]
pub enum OpCode {
    /// Also the push of a changed cluster config.
    SetKey,
    Stat,
    Other(u8),
}

/// What a server's answer means.
#[derive(Debug, Clone, Copy, PartialEq, Eq, Structural)]
pub enum ServerErrorKind {
    KeyNotFound,
    UnknownCollectionID,
    UnknownCollectionName,
    UnknownScopeName,
    /// A status with no name of its own for the operation.
    UnknownStatus { status: Status },
    Other,
}

#[derive(Debug, Clone, Copy, PartialEq, Eq, Structural)]
pub struct ServerError {
    pub kind: ServerErrorKind,
    pub op_code: OpCode,
    pub status: Status,
    pub opaque: u32,
}

impl ServerError {
    pub fn new(kind: ServerErrorKind, op_code: OpCode, status: Status, opaque: u32) -> (r:
        ServerError)
        ensures
            r == (ServerError { kind, op_code, status, opaque }),
    {
        ServerError { kind, op_code, status, opaque }
    }
}

#[derive(Debug, Clone, Copy, PartialEq, Eq, Structural)]
pub enum ErrorKind {
    /// The server answered the operation with an error.
    Server(ServerError),
    /// The server answered with an error about a named scope or collection.
    Resource(ServerError),
    /// Anything else: the connection, the protocol, a cancelled request.
    Other,
}

/// A failed operation: what kind of failure, how it reads, the name it is
/// counted under, and the text of the error underneath where there is one.
#[derive(Debug, Clone, PartialEq, Eq)]
pub struct Error {
    pub kind: ErrorKind,
    pub text: String,
    pub metrics_name: String,
    pub source: Option<String>,
}

impl Error {
    /// Whether the server answered with this kind of error.
    pub open spec fn says(&self, kind: ServerErrorKind) -> bool {
        match self.kind {
            ErrorKind::Server(e) => e.kind == kind,
            ErrorKind::Resource(e) => e.kind == kind,
            ErrorKind::Other => false,
        }
    }

    pub fn is_server_error_kind(&self, kind: ServerErrorKind) -> (r: bool)
        ensures
            r == self.says(kind),
    {
        match self.kind {
            ErrorKind::Server(e) => e.kind == kind,
            ErrorKind::Resource(e) => e.kind == kind,
            ErrorKind::Other => false,
        }
    }
}

impl Error {
    /// Whether both say the same.
    pub open spec fn same_as(&self, other: &Error) -> bool {
        &&& self.kind == other.kind
        &&& self.text@ == other.text@
        &&& self.metrics_name@ == other.metrics_name@
        &&& opt_text(self.source) == opt_text(other.source)
    }

    pub fn same(&self, other: &Error) -> (r: bool)
        ensures
            r == self.same_as(other),
    {
        self.kind == other.kind && same_text(self.text.as_str(), other.text.as_str()) && same_text(
            self.metrics_name.as_str(),
            other.metrics_name.as_str(),
        ) && same_opt_text(&self.source, &other.source)
    }
}

/// A server's answer says what it means whether or not it was about a named
/// keyspace; any other failure says nothing of the kind.
pub proof fn an_answer_says_what_it_means(e: Error, s: ServerError, kind: ServerErrorKind)
    ensures
        e.kind == ErrorKind::Server(s) || e.kind == ErrorKind::Resource(s) ==> (e.says(kind)
            <==> s.kind == kind),
        e.kind is Other ==> !e.says(kind),
{
}

/// Two failures are the same only where they mean, say and are counted the
/// same.
pub proof fn a_failure_is_the_same_in_every_word(a: Error, b: Error)
    ensures
        a.same_as(&b) ==> a.kind == b.kind && a.text@ == b.text@ && a.metrics_name@
            == b.metrics_name@,
        a.same_as(&b) ==> (a.source is Some <==> b.source is Some),
        a.same_as(&b) && a.source is Some ==> a.source->0@ == b.source->0@,
        a.same_as(&a),
{
}

} // verus!
