//! Everything that can go wrong between here and an indexer.
use std::time::Duration;
use vstd::prelude::*;
use vstd::string::*;
use crate::duration::{duration_message, duration_text, nanos_in, nanos_of};
use crate::failure::ServiceFailure;
use crate::indexerx::io_failure::{io_kind_message, io_kind_text, kind_in, IoFailure};
use crate::indexerx::packet_codec::{CodecError, ProtocolError};
use crate::indexerx::proto::ParseError;
use crate::text::{
    contains, contains_text, decimal, lowercased, occurs_at, owned, push_decimal, same_text,
    to_lowercase,
};

verus! {

/// `std::io::ErrorKind` compared with `==`: whether both are the same kind.
pub assume_specification[ <std::io::ErrorKind as PartialEq>::eq ](
    a: &std::io::ErrorKind,
    b: &std::io::ErrorKind,
) -> (r: bool)
    ensures
        r == (*a == *b),
;

/// What went wrong, with the text of the error underneath where there is one.
#[derive(Debug, Clone)]
pub struct Error {
    kind: Box<ErrorKind>,
    source: Option<String>,
}

/// Everything that can go wrong between here and an indexer.
#[derive(Debug, Clone, PartialEq, Eq)]
#[non_exhaustive]
pub enum ErrorKind {
    /// A live connection going wrong.
    Io { kind: std::io::ErrorKind },
    Protocol(ProtocolError),
    Parse(ParseError),
    Server(ServerError),
    /// The socket could not be opened, or the TLS handshake failed. `msg`
    /// names the step; the detail is the error's source.
    Connect { msg: String },
    /// The server rejected the credentials, or wanted some on a connection
    /// that offered none.
    Authentication(AuthCode),
    /// The connection is spoken for: a second request cannot be issued while a
    /// scan is streaming.
    Busy,
    /// The stream ended without the terminator that ends a stream. The
    /// connection is desynchronised and must not be reused.
    UnexpectedEof,
    /// The indexing service's HTTP surface could not be reached.
    Http(ServiceFailure),
    /// A response arrived but its JSON could not be read.
    Decoding { msg: String },
    /// Every connection to `endpoint` stayed in use for as long as a caller
    /// was prepared to wait.
    PoolExhausted { endpoint: String, waited: Duration },
}

/// What the indexer said, classified. The raw text is kept on every variant.
#[derive(Debug, Clone, PartialEq, Eq)]
pub enum ServerError {
    /// The partition moved: refresh the topology and retry.
    NotMyPartition(String),
    /// The index was dropped, or never existed under this definition id.
    IndexNotFound(String),
    /// The index exists but is still building.
    IndexNotReady(String),
    /// Something that is not classified.
    Other(String),
}

/// The conditions that a server's text can name.
pub enum ServerCondition {
    NotMyPartition,
    IndexNotFound,
    IndexNotReady,
    Other,
}

/// The condition that a text in lower case names. The first of the three known
/// phrases that it contains decides.
pub open spec fn condition_of(lower: Seq<char>) -> ServerCondition {
    if contains_text(lower, "not my partition"@) {
        ServerCondition::NotMyPartition
    } else if contains_text(lower, "index not found"@) {
        ServerCondition::IndexNotFound
    } else if contains_text(lower, "index not ready"@) {
        ServerCondition::IndexNotReady
    } else {
        ServerCondition::Other
    }
}

impl ServerError {
    /// The text that the server sent.
    pub open spec fn raw_text(&self) -> Seq<char> {
        match self {
            ServerError::NotMyPartition(s) => s@,
            ServerError::IndexNotFound(s) => s@,
            ServerError::IndexNotReady(s) => s@,
            ServerError::Other(s) => s@,
        }
    }

    pub open spec fn condition(&self) -> ServerCondition {
        match self {
            ServerError::NotMyPartition(_) => ServerCondition::NotMyPartition,
            ServerError::IndexNotFound(_) => ServerCondition::IndexNotFound,
            ServerError::IndexNotReady(_) => ServerCondition::IndexNotReady,
            ServerError::Other(_) => ServerCondition::Other,
        }
    }

    /// Classifies an error text that the indexer sent: by substring, whatever
    /// the case of its letters.
    pub fn classify(raw: &str) -> (r: ServerError)
        ensures
            r.raw_text() == raw@,
            r.condition() == condition_of(lowercased(raw@)),
            vstd::utf8::is_ascii_chars(raw@) ==> r.condition() == condition_of(
                raw@.map_values(|c: char| crate::text::ascii_lowered(c)),
            ),
    {
        let lower: String = to_lowercase(raw);
        ServerError::classify_lowered(owned(raw), lower.as_str())
    }

    /// Classifies an error text by what it reads in lower case.
    pub fn classify_lowered(raw: String, lower: &str) -> (r: ServerError)
        ensures
            r.raw_text() == raw@,
            r.condition() == condition_of(lower@),
    {
        if contains(lower, "not my partition") {
            ServerError::NotMyPartition(raw)
        } else if contains(lower, "index not found") {
            ServerError::IndexNotFound(raw)
        } else if contains(lower, "index not ready") {
            ServerError::IndexNotReady(raw)
        } else {
            ServerError::Other(raw)
        }
    }

    /// The text the indexer sent, whatever the classification.
    pub fn raw(&self) -> (r: &str)
        ensures
            r@ == self.raw_text(),
    {
        match self {
            ServerError::NotMyPartition(s) => s.as_str(),
            ServerError::IndexNotFound(s) => s.as_str(),
            ServerError::IndexNotReady(s) => s.as_str(),
            ServerError::Other(s) => s.as_str(),
        }
    }

    /// Whether a caller that refreshes its topology could expect a retry to
    /// succeed: only a moved partition is found again that way.
    pub fn is_retryable_after_refresh(&self) -> (r: bool)
        ensures
            r == (self.condition() == ServerCondition::NotMyPartition),
    {
        match self {
            ServerError::NotMyPartition(_) => true,
            ServerError::IndexNotFound(_) => false,
            ServerError::IndexNotReady(_) => false,
            ServerError::Other(_) => false,
        }
    }

    pub open spec fn text(&self) -> Seq<char> {
        match self {
            ServerError::NotMyPartition(s) => "not my partition: "@ + s@,
            ServerError::IndexNotFound(s) => "index not found: "@ + s@,
            ServerError::IndexNotReady(s) => "index not ready: "@ + s@,
            ServerError::Other(s) => s@,
        }
    }

    /// How the error reads.
    pub fn message(&self) -> (r: String)
        ensures
            r@ == self.text(),
    {
        match self {
            ServerError::NotMyPartition(s) => owned("not my partition: ").concat(s.as_str()),
            ServerError::IndexNotFound(s) => owned("index not found: ").concat(s.as_str()),
            ServerError::IndexNotReady(s) => owned("index not ready: ").concat(s.as_str()),
            ServerError::Other(s) => s.clone(),
        }
    }

    /// The name the error is counted under.
    pub fn metrics_name(&self) -> (r: &'static str)
        ensures
            r@ == self.counted_as(),
    {
        match self {
            ServerError::NotMyPartition(_) => "indexerx.NotMyPartition",
            ServerError::IndexNotFound(_) => "indexerx.IndexNotFound",
            ServerError::IndexNotReady(_) => "indexerx.IndexNotReady",
            ServerError::Other(_) => "indexerx._OTHER",
        }
    }

    pub open spec fn counted_as(&self) -> Seq<char> {
        match self.condition() {
            ServerCondition::NotMyPartition => "indexerx.NotMyPartition"@,
            ServerCondition::IndexNotFound => "indexerx.IndexNotFound"@,
            ServerCondition::IndexNotReady => "indexerx.IndexNotReady"@,
            ServerCondition::Other => "indexerx._OTHER"@,
        }
    }

    /// Whether both say the same of the same condition.
    pub open spec fn same_as(&self, other: &ServerError) -> bool {
        self.condition() == other.condition() && self.raw_text() == other.raw_text()
    }

    fn same(&self, other: &ServerError) -> (r: bool)
        ensures
            r == self.same_as(other),
    {
        let alike: bool = match (self, other) {
            (ServerError::NotMyPartition(_), ServerError::NotMyPartition(_)) => true,
            (ServerError::IndexNotFound(_), ServerError::IndexNotFound(_)) => true,
            (ServerError::IndexNotReady(_), ServerError::IndexNotReady(_)) => true,
            (ServerError::Other(_), ServerError::Other(_)) => true,
            _ => false,
        };
        alike && same_text(self.raw(), other.raw())
    }
}

/// What the server answered to credentials.
#[derive(Debug, Clone, Copy, PartialEq, Eq, Structural)]
pub enum AuthCode {
    Success,
    Failure,
    /// The server wants credentials on a connection that sent none.
    Missing,
    Unknown(u32),
}

/// The answer that a code stands for.
pub open spec fn auth_code_of(code: u32) -> AuthCode {
    if code == 1 {
        AuthCode::Success
    } else if code == 2 {
        AuthCode::Failure
    } else if code == 3 {
        AuthCode::Missing
    } else {
        AuthCode::Unknown(code)
    }
}

impl vstd::std_specs::convert::FromSpecImpl<u32> for AuthCode {
    open spec fn obeys_from_spec() -> bool {
        true
    }

    open spec fn from_spec(code: u32) -> AuthCode {
        auth_code_of(code)
    }
}

impl From<u32> for AuthCode {
    fn from(code: u32) -> (r: AuthCode) {
        match code {
            1 => AuthCode::Success,
            2 => AuthCode::Failure,
            3 => AuthCode::Missing,
            other => AuthCode::Unknown(other),
        }
    }
}

impl AuthCode {
    pub open spec fn text(&self) -> Seq<char> {
        match self {
            AuthCode::Success => "success"@,
            AuthCode::Failure => "invalid credentials"@,
            AuthCode::Missing => "credentials missing"@,
            AuthCode::Unknown(c) => "unknown auth code "@ + decimal(*c as nat),
        }
    }

    /// How the code reads.
    pub fn message(&self) -> (r: String)
        ensures
            r@ == self.text(),
    {
        match self {
            AuthCode::Success => owned("success"),
            AuthCode::Failure => owned("invalid credentials"),
            AuthCode::Missing => owned("credentials missing"),
            AuthCode::Unknown(c) => {
                let mut r: String = owned("unknown auth code ");
                push_decimal(&mut r, *c as u64);
                r
            },
        }
    }
}

impl ErrorKind {
    pub open spec fn text(&self) -> Seq<char> {
        match self {
            ErrorKind::Io { kind } => "indexerx IO error: "@ + io_kind_text(*kind),
            ErrorKind::Connect { msg } => "indexerx connect error: "@ + msg@,
            ErrorKind::Protocol(e) => "indexerx protocol error: "@ + e.text(),
            ErrorKind::Parse(e) => "indexerx parse error: "@ + e.text(),
            ErrorKind::Server(e) => "indexerx server error: "@ + e.text(),
            ErrorKind::Authentication(c) => "indexerx authentication failed: "@ + c.text(),
            ErrorKind::Busy => "indexerx connection is already serving a request"@,
            ErrorKind::UnexpectedEof => "indexerx connection closed before the response ended"@,
            ErrorKind::Http(e) => "indexerx http error: "@ + e.text@,
            ErrorKind::Decoding { msg } => "indexerx decoding error: "@ + msg@,
            ErrorKind::PoolExhausted { endpoint, waited } => {
                "indexerx connection pool for "@ + endpoint@ + " exhausted after "@
                    + duration_text(*waited)
            },
        }
    }

    /// How the error reads.
    pub fn message(&self) -> (r: String)
        ensures
            r@ == self.text(),
    {
        match self {
            ErrorKind::Io { kind } => owned("indexerx IO error: ").concat(
                io_kind_message(kind).as_str(),
            ),
            ErrorKind::Connect { msg } => owned("indexerx connect error: ").concat(msg.as_str()),
            ErrorKind::Protocol(e) => owned("indexerx protocol error: ").concat(
                e.message().as_str(),
            ),
            ErrorKind::Parse(e) => owned("indexerx parse error: ").concat(e.message().as_str()),
            ErrorKind::Server(e) => owned("indexerx server error: ").concat(e.message().as_str()),
            ErrorKind::Authentication(c) => owned("indexerx authentication failed: ").concat(
                c.message().as_str(),
            ),
            ErrorKind::Busy => owned("indexerx connection is already serving a request"),
            ErrorKind::UnexpectedEof => owned(
                "indexerx connection closed before the response ended",
            ),
            ErrorKind::Http(e) => owned("indexerx http error: ").concat(e.text.as_str()),
            ErrorKind::Decoding { msg } => owned("indexerx decoding error: ").concat(msg.as_str()),
            ErrorKind::PoolExhausted { endpoint, waited } => {
                let mut r: String = owned("indexerx connection pool for ");
                r.append(endpoint.as_str());
                r.append(" exhausted after ");
                r.append(duration_message(*waited).as_str());
                r
            },
        }
    }

    pub open spec fn counted_as(&self) -> Seq<char> {
        match self {
            ErrorKind::Io { kind: _ } => "indexerx.Io"@,
            ErrorKind::Connect { msg: _ } => "indexerx.Connect"@,
            ErrorKind::Protocol(_) => "indexerx.Protocol"@,
            ErrorKind::Parse(_) => "indexerx.Parse"@,
            ErrorKind::Server(e) => e.counted_as(),
            ErrorKind::Authentication(_) => "indexerx.Authentication"@,
            ErrorKind::Busy => "indexerx.Busy"@,
            ErrorKind::UnexpectedEof => "indexerx.UnexpectedEof"@,
            ErrorKind::Http(e) => e.metrics_name@,
            ErrorKind::Decoding { msg: _ } => "indexerx.Decoding"@,
            ErrorKind::PoolExhausted { endpoint: _, waited: _ } => "indexerx.PoolExhausted"@,
        }
    }

    /// The name the error is counted under.
    pub fn metrics_name(&self) -> (r: &str)
        ensures
            r@ == self.counted_as(),
    {
        match self {
            ErrorKind::Io { kind: _ } => "indexerx.Io",
            ErrorKind::Connect { msg: _ } => "indexerx.Connect",
            ErrorKind::Protocol(_) => "indexerx.Protocol",
            ErrorKind::Parse(_) => "indexerx.Parse",
            ErrorKind::Server(e) => e.metrics_name(),
            ErrorKind::Authentication(_) => "indexerx.Authentication",
            ErrorKind::Busy => "indexerx.Busy",
            ErrorKind::UnexpectedEof => "indexerx.UnexpectedEof",
            ErrorKind::Http(e) => e.metrics_name.as_str(),
            ErrorKind::Decoding { msg: _ } => "indexerx.Decoding",
            ErrorKind::PoolExhausted { endpoint: _, waited: _ } => "indexerx.PoolExhausted",
        }
    }

    /// Whether both are the same kind of failure with the same detail.
    pub open spec fn same_as(&self, other: &ErrorKind) -> bool {
        match (*self, *other) {
            (ErrorKind::Io { kind: a }, ErrorKind::Io { kind: b }) => a == b,
            (ErrorKind::Protocol(a), ErrorKind::Protocol(b)) => a == b,
            (ErrorKind::Parse(a), ErrorKind::Parse(b)) => a.same_as(&b),
            (ErrorKind::Server(a), ErrorKind::Server(b)) => a.same_as(&b),
            (ErrorKind::Connect { msg: a }, ErrorKind::Connect { msg: b }) => a@ == b@,
            (ErrorKind::Authentication(a), ErrorKind::Authentication(b)) => a == b,
            (ErrorKind::Busy, ErrorKind::Busy) => true,
            (ErrorKind::UnexpectedEof, ErrorKind::UnexpectedEof) => true,
            (ErrorKind::Http(a), ErrorKind::Http(b)) => a.text@ == b.text@ && a.metrics_name@
                == b.metrics_name@,
            (ErrorKind::Decoding { msg: a }, ErrorKind::Decoding { msg: b }) => a@ == b@,
            (
                ErrorKind::PoolExhausted { endpoint: a, waited: x },
                ErrorKind::PoolExhausted { endpoint: b, waited: y },
            ) => a@ == b@ && nanos_in(x) == nanos_in(y),
            _ => false,
        }
    }

    fn same(&self, other: &ErrorKind) -> (r: bool)
        ensures
            r == self.same_as(other),
    {
        match (self, other) {
            (ErrorKind::Io { kind: a }, ErrorKind::Io { kind: b }) => *a == *b,
            (ErrorKind::Protocol(a), ErrorKind::Protocol(b)) => *a == *b,
            (ErrorKind::Parse(a), ErrorKind::Parse(b)) => a.same(b),
            (ErrorKind::Server(a), ErrorKind::Server(b)) => a.same(b),
            (ErrorKind::Connect { msg: a }, ErrorKind::Connect { msg: b }) => same_text(
                a.as_str(),
                b.as_str(),
            ),
            (ErrorKind::Authentication(a), ErrorKind::Authentication(b)) => *a == *b,
            (ErrorKind::Busy, ErrorKind::Busy) => true,
            (ErrorKind::UnexpectedEof, ErrorKind::UnexpectedEof) => true,
            (ErrorKind::Http(a), ErrorKind::Http(b)) => same_text(a.text.as_str(), b.text.as_str())
                && same_text(a.metrics_name.as_str(), b.metrics_name.as_str()),
            (ErrorKind::Decoding { msg: a }, ErrorKind::Decoding { msg: b }) => same_text(
                a.as_str(),
                b.as_str(),
            ),
            (
                ErrorKind::PoolExhausted { endpoint: a, waited: x },
                ErrorKind::PoolExhausted { endpoint: b, waited: y },
            ) => same_text(a.as_str(), b.as_str()) && nanos_of(*x) == nanos_of(*y),
            _ => false,
        }
    }
}

impl Error {
    /// What kind of failure this is.
    pub closed spec fn spec_kind(&self) -> ErrorKind {
        *self.kind
    }

    /// The text of the error underneath, where there is one.
    pub closed spec fn source_text(&self) -> Option<Seq<char>> {
        match self.source {
            Some(s) => Some(s@),
            None => None,
        }
    }

    fn new(kind: ErrorKind) -> (r: Self)
        ensures
            r.spec_kind() == kind,
            r.source_text() is None,
    {
        Error { kind: Box::new(kind), source: None }
    }

    /// The socket could not be opened, or could not be upgraded to TLS.
    pub fn new_connect_error(msg: &str, source: String) -> (r: Self)
        ensures
            r.spec_kind() matches ErrorKind::Connect { msg: m } && m@ == msg@,
            r.source_text() == Some(source@),
    {
        Error { kind: Box::new(ErrorKind::Connect { msg: owned(msg) }), source: Some(source) }
    }

    /// A live connection failed. The classification goes into the kind, the
    /// text becomes the source.
    pub fn new_io_error(source: IoFailure) -> (r: Self)
        ensures
            r.spec_kind() == (ErrorKind::Io { kind: source.kind }),
            r.source_text() == Some(source.text@),
    {
        Error {
            kind: Box::new(ErrorKind::Io { kind: source.kind }),
            source: Some(source.text),
        }
    }

    pub fn new_protocol_error(e: ProtocolError) -> (r: Self)
        ensures
            r.spec_kind() == ErrorKind::Protocol(e),
            r.source_text() is None,
    {
        Error::new(ErrorKind::Protocol(e))
    }

    pub fn new_parse_error(e: ParseError) -> (r: Self)
        ensures
            r.spec_kind() == ErrorKind::Parse(e),
            r.source_text() is None,
    {
        Error::new(ErrorKind::Parse(e))
    }

    pub fn new_server_error(e: ServerError) -> (r: Self)
        ensures
            r.spec_kind() == ErrorKind::Server(e),
            r.source_text() is None,
    {
        Error::new(ErrorKind::Server(e))
    }

    pub fn new_authentication_error(code: AuthCode) -> (r: Self)
        ensures
            r.spec_kind() == ErrorKind::Authentication(code),
            r.source_text() is None,
    {
        Error::new(ErrorKind::Authentication(code))
    }

    pub fn new_busy_error() -> (r: Self)
        ensures
            r.spec_kind() == ErrorKind::Busy,
            r.source_text() is None,
    {
        Error::new(ErrorKind::Busy)
    }

    pub fn new_unexpected_eof_error() -> (r: Self)
        ensures
            r.spec_kind() == ErrorKind::UnexpectedEof,
            r.source_text() is None,
    {
        Error::new(ErrorKind::UnexpectedEof)
    }

    pub fn new_http_error(e: ServiceFailure) -> (r: Self)
        ensures
            r.spec_kind() == ErrorKind::Http(e),
            r.source_text() is None,
    {
        Error::new(ErrorKind::Http(e))
    }

    pub fn new_decoding_error(msg: &str) -> (r: Self)
        ensures
            r.spec_kind() matches ErrorKind::Decoding { msg: m } && m@ == msg@,
            r.source_text() is None,
    {
        Error::new(ErrorKind::Decoding { msg: owned(msg) })
    }

    /// Nothing to `endpoint` came free within the time a caller waited.
    pub fn new_pool_exhausted_error(endpoint: String, waited: Duration) -> (r: Self)
        ensures
            r.spec_kind() == (ErrorKind::PoolExhausted { endpoint, waited }),
            r.source_text() is None,
    {
        Error::new(ErrorKind::PoolExhausted { endpoint, waited })
    }

    pub fn kind(&self) -> (r: &ErrorKind)
        ensures
            *r == self.spec_kind(),
    {
        &self.kind
    }

    /// The text of the error underneath, where there is one.
    pub fn source(&self) -> (r: Option<&String>)
        ensures
            r is Some <==> self.source_text() is Some,
            r is Some ==> r->0@ == self.source_text()->0,
    {
        self.source.as_ref()
    }

    pub open spec fn text(&self) -> Seq<char> {
        match self.source_text() {
            Some(source) => self.spec_kind().text() + ": "@ + source,
            None => self.spec_kind().text(),
        }
    }

    /// How the error reads: its kind, and behind it the error underneath.
    pub fn message(&self) -> (r: String)
        ensures
            r@ == self.text(),
    {
        let mut r: String = self.kind.message();
        match &self.source {
            Some(source) => {
                r.append(": ");
                r.append(source.as_str());
            },
            None => {},
        }
        r
    }

    /// The name the error is counted under.
    pub fn metrics_name(&self) -> (r: &str)
        ensures
            r@ == self.spec_kind().counted_as(),
    {
        self.kind.metrics_name()
    }
}

impl vstd::std_specs::cmp::PartialEqSpecImpl for Error {
    open spec fn obeys_eq_spec() -> bool {
        true
    }

    open spec fn eq_spec(&self, other: &Error) -> bool {
        self.spec_kind().same_as(&other.spec_kind())
    }
}

/// Two errors are the same error when they are the same kind. The source is
/// detail that hangs off the kind.
impl PartialEq for Error {
    fn eq(&self, other: &Error) -> (r: bool) {
        self.kind.same(&other.kind)
    }
}

impl vstd::std_specs::convert::FromSpecImpl<std::io::Error> for Error {
    open spec fn obeys_from_spec() -> bool {
        false
    }

    open spec fn from_spec(e: std::io::Error) -> Error {
        arbitrary()
    }
}

impl From<std::io::Error> for Error {
    fn from(e: std::io::Error) -> (r: Error)
        ensures
            r.spec_kind() == (ErrorKind::Io { kind: kind_in(e) }),
            r.source_text() is Some,
    {
        Error::new_io_error(IoFailure::read(&e))
    }
}

impl vstd::std_specs::convert::FromSpecImpl<ProtocolError> for Error {
    open spec fn obeys_from_spec() -> bool {
        true
    }

    closed spec fn from_spec(e: ProtocolError) -> Error {
        Error { kind: Box::new(ErrorKind::Protocol(e)), source: None }
    }
}

impl From<ProtocolError> for Error {
    fn from(e: ProtocolError) -> (r: Error)
        ensures
            r.spec_kind() == ErrorKind::Protocol(e),
            r.source_text() is None,
    {
        Error { kind: Box::new(ErrorKind::Protocol(e)), source: None }
    }
}

impl vstd::std_specs::convert::FromSpecImpl<ParseError> for Error {
    open spec fn obeys_from_spec() -> bool {
        true
    }

    closed spec fn from_spec(e: ParseError) -> Error {
        Error { kind: Box::new(ErrorKind::Parse(e)), source: None }
    }
}

impl From<ParseError> for Error {
    fn from(e: ParseError) -> (r: Error)
        ensures
            r.spec_kind() == ErrorKind::Parse(e),
            r.source_text() is None,
    {
        Error { kind: Box::new(ErrorKind::Parse(e)), source: None }
    }
}

impl vstd::std_specs::convert::FromSpecImpl<ServerError> for Error {
    open spec fn obeys_from_spec() -> bool {
        true
    }

    closed spec fn from_spec(e: ServerError) -> Error {
        Error { kind: Box::new(ErrorKind::Server(e)), source: None }
    }
}

impl From<ServerError> for Error {
    fn from(e: ServerError) -> (r: Error)
        ensures
            r.spec_kind() == ErrorKind::Server(e),
            r.source_text() is None,
    {
        Error { kind: Box::new(ErrorKind::Server(e)), source: None }
    }
}

impl vstd::std_specs::convert::FromSpecImpl<ServiceFailure> for Error {
    open spec fn obeys_from_spec() -> bool {
        true
    }

    closed spec fn from_spec(e: ServiceFailure) -> Error {
        Error { kind: Box::new(ErrorKind::Http(e)), source: None }
    }
}

impl From<ServiceFailure> for Error {
    fn from(e: ServiceFailure) -> (r: Error)
        ensures
            r.spec_kind() == ErrorKind::Http(e),
            r.source_text() is None,
    {
        Error { kind: Box::new(ErrorKind::Http(e)), source: None }
    }
}

impl vstd::std_specs::convert::FromSpecImpl<CodecError> for Error {
    open spec fn obeys_from_spec() -> bool {
        true
    }

    closed spec fn from_spec(e: CodecError) -> Error {
        match e {
            CodecError::Io(f) => Error {
                kind: Box::new(ErrorKind::Io { kind: f.kind }),
                source: Some(f.text),
            },
            CodecError::Protocol(p) => Error {
                kind: Box::new(ErrorKind::Protocol(p)),
                source: None,
            },
        }
    }
}

impl From<CodecError> for Error {
    fn from(e: CodecError) -> (r: Error)
        ensures
            e matches CodecError::Io(f) ==> r.spec_kind() == (ErrorKind::Io { kind: f.kind })
                && r.source_text() == Some(f.text@),
            e matches CodecError::Protocol(p) ==> r.spec_kind() == ErrorKind::Protocol(p)
                && r.source_text() is None,
    {
        match e {
            CodecError::Io(f) => Error {
                kind: Box::new(ErrorKind::Io { kind: f.kind }),
                source: Some(f.text),
            },
            CodecError::Protocol(p) => Error {
                kind: Box::new(ErrorKind::Protocol(p)),
                source: None,
            },
        }
    }
}

proof fn lemma_contained(before: Seq<char>, text: Seq<char>, after: Seq<char>, needle: Seq<char>)
    requires
        contains_text(text, needle),
    ensures
        contains_text(before + text + after, needle),
{
    let i = choose|i: int| #[trigger] occurs_at(text, needle, i);
    let whole = before + text + after;
    let at = before.len() + i;
    assert(whole.subrange(at, at + needle.len()) =~= text.subrange(i, i + needle.len()));
    assert(occurs_at(whole, needle, at));
}

/// A condition is recognised however the text that names it is wrapped: a moved
/// partition is still one, and a text that names a condition still names one.
pub proof fn a_wrapped_condition_is_still_recognised(
    before: Seq<char>,
    text: Seq<char>,
    after: Seq<char>,
)
    ensures
        condition_of(text) == ServerCondition::NotMyPartition ==> condition_of(
            before + text + after,
        ) == ServerCondition::NotMyPartition,
        condition_of(text) != ServerCondition::Other ==> condition_of(before + text + after)
            != ServerCondition::Other,
{
    if contains_text(text, "not my partition"@) {
        lemma_contained(before, text, after, "not my partition"@);
    }
    if contains_text(text, "index not found"@) {
        lemma_contained(before, text, after, "index not found"@);
    }
    if contains_text(text, "index not ready"@) {
        lemma_contained(before, text, after, "index not ready"@);
    }
}

/// The condition that a text in lower case names goes by the phrases it
/// contains: that the partition is another's goes before that the index is not
/// found, and that before that it is not ready. A text that contains none of
/// them names none.
pub proof fn a_text_names_the_condition_whose_phrase_it_contains(lower: Seq<char>)
    ensures
        condition_of(lower) is NotMyPartition <==> contains_text(lower, "not my partition"@),
        contains_text(lower, "index not found"@) && !contains_text(lower, "not my partition"@)
            <==> condition_of(lower) is IndexNotFound,
        contains_text(lower, "index not ready"@) && !contains_text(lower, "not my partition"@)
            && !contains_text(lower, "index not found"@) <==> condition_of(lower) is IndexNotReady,
{
}

/// The server's text is kept whatever its condition, and reads behind the
/// condition where it has one.
pub proof fn a_server_error_reads_as_its_condition_and_its_text(e: ServerError)
    ensures
        e.condition() is NotMyPartition ==> e.text() == "not my partition: "@ + e.raw_text(),
        e.condition() is IndexNotFound ==> e.text() == "index not found: "@ + e.raw_text(),
        e.condition() is IndexNotReady ==> e.text() == "index not ready: "@ + e.raw_text(),
        e.condition() is Other ==> e.text() == e.raw_text(),
        e.condition() is NotMyPartition <==> e is NotMyPartition,
        e.condition() is IndexNotFound <==> e is IndexNotFound,
        e.condition() is IndexNotReady <==> e is IndexNotReady,
        e is NotMyPartition ==> e.counted_as() == "indexerx.NotMyPartition"@,
        e is IndexNotFound ==> e.counted_as() == "indexerx.IndexNotFound"@,
        e is IndexNotReady ==> e.counted_as() == "indexerx.IndexNotReady"@,
        e is Other ==> e.counted_as() == "indexerx._OTHER"@,
{
}

/// One is the only code that lets a client in.
pub proof fn one_code_lets_a_client_in(code: u32)
    ensures
        auth_code_of(code) is Success <==> code == 1,
        auth_code_of(code) is Failure <==> code == 2,
        auth_code_of(code) is Missing <==> code == 3,
        auth_code_of(code) is Unknown ==> auth_code_of(code) == AuthCode::Unknown(code)
            && auth_code_of(code).text() == "unknown auth code "@ + decimal(code as nat),
        code == 1 ==> auth_code_of(code).text() == "success"@,
        code == 2 ==> auth_code_of(code).text() == "invalid credentials"@,
        code == 3 ==> auth_code_of(code).text() == "credentials missing"@,
{
}

/// A failure reads as what failed and, behind it, as what is underneath. It is
/// counted by what failed.
pub proof fn a_failure_reads_as_what_failed(e: Error)
    ensures
        e.source_text() is None ==> e.text() == e.spec_kind().text(),
        e.source_text() matches Some(source) ==> e.text() == e.spec_kind().text() + ": "@ + source,
        e.spec_kind() matches ErrorKind::Io { kind } ==> e.spec_kind().text()
            == "indexerx IO error: "@ + io_kind_text(kind) && e.spec_kind().counted_as()
            == "indexerx.Io"@,
        e.spec_kind() matches ErrorKind::Connect { msg } ==> e.spec_kind().text()
            == "indexerx connect error: "@ + msg@ && e.spec_kind().counted_as()
            == "indexerx.Connect"@,
        e.spec_kind() matches ErrorKind::Protocol(p) ==> e.spec_kind().text()
            == "indexerx protocol error: "@ + p.text() && e.spec_kind().counted_as()
            == "indexerx.Protocol"@,
        e.spec_kind() matches ErrorKind::Parse(p) ==> e.spec_kind().text()
            == "indexerx parse error: "@ + p.text() && e.spec_kind().counted_as()
            == "indexerx.Parse"@,
        e.spec_kind() matches ErrorKind::Server(s) ==> e.spec_kind().text()
            == "indexerx server error: "@ + s.text() && e.spec_kind().counted_as()
            == s.counted_as(),
        e.spec_kind() matches ErrorKind::Authentication(c) ==> e.spec_kind().text()
            == "indexerx authentication failed: "@ + c.text() && e.spec_kind().counted_as()
            == "indexerx.Authentication"@,
        e.spec_kind() is Busy ==> e.spec_kind().text()
            == "indexerx connection is already serving a request"@ && e.spec_kind().counted_as()
            == "indexerx.Busy"@,
        e.spec_kind() is UnexpectedEof ==> e.spec_kind().text()
            == "indexerx connection closed before the response ended"@
            && e.spec_kind().counted_as() == "indexerx.UnexpectedEof"@,
        e.spec_kind() matches ErrorKind::Http(h) ==> e.spec_kind().text()
            == "indexerx http error: "@ + h.text@ && e.spec_kind().counted_as() == h.metrics_name@,
        e.spec_kind() matches ErrorKind::Decoding { msg } ==> e.spec_kind().text()
            == "indexerx decoding error: "@ + msg@ && e.spec_kind().counted_as()
            == "indexerx.Decoding"@,
        e.spec_kind() matches ErrorKind::PoolExhausted { endpoint, waited } ==> e.spec_kind().text()
            == "indexerx connection pool for "@ + endpoint@ + " exhausted after "@ + duration_text(
            waited,
        ) && e.spec_kind().counted_as() == "indexerx.PoolExhausted"@,
{
}

/// Two failures of different kinds are not the same, and neither are two of one
/// kind that differ in what they say.
pub proof fn a_failure_is_the_same_only_in_every_detail(a: ErrorKind, b: ErrorKind)
    requires
        a.same_as(&b),
    ensures
        a is Io <==> b is Io,
        a is Connect <==> b is Connect,
        a is Protocol <==> b is Protocol,
        a is Parse <==> b is Parse,
        a is Server <==> b is Server,
        a is Authentication <==> b is Authentication,
        a is Busy <==> b is Busy,
        a is UnexpectedEof <==> b is UnexpectedEof,
        a is Http <==> b is Http,
        a is Decoding <==> b is Decoding,
        a is PoolExhausted <==> b is PoolExhausted,
        b.same_as(&a),
        !(a is PoolExhausted) ==> a.text() == b.text() && a.counted_as() == b.counted_as(),
{
}

} // verus!
