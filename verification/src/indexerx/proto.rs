//! Requests and responses in this client's vocabulary, and the reading of what
//! the server sent.
//!
//! A decoded message carries its failure beside its rows, where a caller can
//! forget to look. [`decode_response`] lifts the failure out, so a response in
//! hand is one that succeeded.
use bytes::Bytes;
use std::time::Duration;
use vstd::prelude::*;
use vstd::string::*;
use crate::duration::{nanos_in, nanos_of};
use crate::indexerx::error::{
    auth_code_of, condition_of, AuthCode, Error, ErrorKind, ServerError,
};
use crate::indexerx::span::{Filter, Scan};
use crate::indexerx::wire;
use crate::indexerx::wire::{blank_payload, QueryPayload};
use crate::text::{decimal, lowercased, owned, push_decimal, same_text};

verus! {

/// The protocol version this client speaks. It is set on the way out and
/// checked on the way in.
pub const PROTOBUF_VERSION: u32 = 1;

/// Why a message could not be used.
#[derive(Debug, Clone, PartialEq, Eq)]
pub enum ParseError {
    /// The payload is not a well-formed message.
    Undecodable(String),
    /// A payload with no recognised message set.
    UnknownPayload,
    /// The payload's version is not one that is spoken here.
    UnsupportedVersion { got: u32, expected: u32 },
    /// A well-formed message, but not the one this exchange expects. Ordering
    /// is the only correlation, so the stream is desynchronised.
    UnexpectedMessage { expected: &'static str, got: &'static str },
}

impl ParseError {
    pub open spec fn text(&self) -> Seq<char> {
        match *self {
            ParseError::Undecodable(e) => "malformed QueryPayload: "@ + e@,
            ParseError::UnknownPayload => "QueryPayload carried no message this client recognises"@,
            ParseError::UnsupportedVersion { got, expected } => "protocol version "@ + decimal(
                got as nat,
            ) + " is not the expected "@ + decimal(expected as nat),
            ParseError::UnexpectedMessage { expected, got } => "expected a "@ + expected@
                + " but the server sent a "@ + got@,
        }
    }

    /// How the error reads.
    pub fn message(&self) -> (r: String)
        ensures
            r@ == self.text(),
    {
        match self {
            ParseError::Undecodable(e) => owned("malformed QueryPayload: ").concat(e.as_str()),
            ParseError::UnknownPayload => owned(
                "QueryPayload carried no message this client recognises",
            ),
            ParseError::UnsupportedVersion { got, expected } => {
                let mut r: String = owned("protocol version ");
                push_decimal(&mut r, *got as u64);
                r.append(" is not the expected ");
                push_decimal(&mut r, *expected as u64);
                r
            },
            ParseError::UnexpectedMessage { expected, got } => {
                let mut r: String = owned("expected a ");
                r.append(expected);
                r.append(" but the server sent a ");
                r.append(got);
                r
            },
        }
    }

    /// Whether both say the same.
    pub open spec fn same_as(&self, other: &ParseError) -> bool {
        match (*self, *other) {
            (ParseError::Undecodable(a), ParseError::Undecodable(b)) => a@ == b@,
            (ParseError::UnknownPayload, ParseError::UnknownPayload) => true,
            (
                ParseError::UnsupportedVersion { got: a, expected: x },
                ParseError::UnsupportedVersion { got: b, expected: y },
            ) => a == b && x == y,
            (
                ParseError::UnexpectedMessage { expected: a, got: x },
                ParseError::UnexpectedMessage { expected: b, got: y },
            ) => a@ == b@ && x@ == y@,
            _ => false,
        }
    }

    pub(crate) fn same(&self, other: &ParseError) -> (r: bool)
        ensures
            r == self.same_as(other),
    {
        match (self, other) {
            (ParseError::Undecodable(a), ParseError::Undecodable(b)) => same_text(
                a.as_str(),
                b.as_str(),
            ),
            (ParseError::UnknownPayload, ParseError::UnknownPayload) => true,
            (
                ParseError::UnsupportedVersion { got: a, expected: x },
                ParseError::UnsupportedVersion { got: b, expected: y },
            ) => *a == *b && *x == *y,
            (
                ParseError::UnexpectedMessage { expected: a, got: x },
                ParseError::UnexpectedMessage { expected: b, got: y },
            ) => same_text(a, b) && same_text(x, y),
            _ => false,
        }
    }
}

/// How the indexer should encode the key values it returns.
#[derive(Debug, Clone, Copy, PartialEq, Eq, Structural)]
pub enum DataEncoding {
    Json,
    CollateJson,
}

impl DataEncoding {
    pub open spec fn wire_value(self) -> u32 {
        match self {
            DataEncoding::Json => 0,
            DataEncoding::CollateJson => 1,
        }
    }

    pub fn as_wire(self) -> (r: u32)
        ensures
            r == self.wire_value(),
    {
        match self {
            DataEncoding::Json => 0,
            DataEncoding::CollateJson => 1,
        }
    }
}

impl Default for DataEncoding {
    fn default() -> (r: DataEncoding)
        ensures
            r == DataEncoding::Json,
    {
        DataEncoding::Json
    }
}

/// Which parts of an entry the indexer should send back.
#[derive(Debug, PartialEq, Eq)]
pub struct Projection {
    /// Index key positions to return, by index. Empty means none.
    pub entry_keys: Vec<i64>,
    /// Whether to return the document key.
    pub primary_key: bool,
}

impl Projection {
    /// Document keys and no key values: the ordinary scan.
    pub fn keys_only() -> (r: Projection)
        ensures
            r.entry_keys@.len() == 0,
            r.primary_key,
    {
        Projection { entry_keys: Vec::new(), primary_key: true }
    }

    /// Document keys plus the named key positions.
    pub fn keys_and(entry_keys: Vec<i64>) -> (r: Projection)
        ensures
            r.entry_keys == entry_keys,
            r.primary_key,
    {
        Projection { entry_keys, primary_key: true }
    }
}

impl Clone for Projection {
    fn clone(&self) -> (r: Projection)
        ensures
            r.entry_keys@ == self.entry_keys@,
            r.primary_key == self.primary_key,
    {
        let entry_keys: Vec<i64> = self.entry_keys.clone();
        assert(entry_keys@ =~= self.entry_keys@);
        Projection { entry_keys, primary_key: self.primary_key }
    }
}

/// How current the index must be before it is read.
#[derive(Debug, PartialEq, Eq)]
pub enum Consistency {
    /// Whatever the indexer has.
    Any,
    /// At least as recent as now, decided by the indexer.
    Session,
    /// At least as recent as the vector, decided by the caller.
    Query(ScanVector),
}

impl Clone for Consistency {
    fn clone(&self) -> (r: Consistency)
        ensures
            r.same_as(self),
    {
        match self {
            Consistency::Any => Consistency::Any,
            Consistency::Session => Consistency::Session,
            Consistency::Query(v) => Consistency::Query(v.clone()),
        }
    }
}

impl Consistency {
    /// Whether both ask for the same.
    pub open spec fn same_as(&self, other: &Consistency) -> bool {
        match (*self, *other) {
            (Consistency::Any, Consistency::Any) => true,
            (Consistency::Session, Consistency::Session) => true,
            (Consistency::Query(a), Consistency::Query(b)) => a@ == b@,
            _ => false,
        }
    }

    pub open spec fn wire_value(&self) -> u32 {
        match self {
            Consistency::Any => 1,
            Consistency::Session => 2,
            Consistency::Query(_) => 3,
        }
    }

    pub fn as_wire(&self) -> (r: u32)
        ensures
            r == self.wire_value(),
    {
        match self {
            Consistency::Any => 1,
            Consistency::Session => 2,
            Consistency::Query(_) => 3,
        }
    }

    /// The vector that goes out beside the level: one exactly where the level
    /// is `Query`, and then the one it carries.
    pub open spec fn sends(&self, ts: Option<wire::TsConsistency>) -> bool {
        match self {
            Consistency::Query(v) => ts matches Some(w) && v.sent_as(w),
            _ => ts is None,
        }
    }

    fn vector(&self) -> (r: Option<wire::TsConsistency>)
        ensures
            self.sends(r),
    {
        match self {
            Consistency::Query(v) => Some(v.as_wire()),
            _ => None,
        }
    }
}

/// One vbucket's position, as a scan vector names it.
#[derive(Debug, Clone, Copy, PartialEq, Eq, Structural)]
pub struct ScanVectorEntry {
    pub vbucket: u16,
    pub seqno: u64,
    /// Never zero in a [`ScanVector`].
    pub vbuuid: u64,
}

/// No entry is one that the indexer would skip.
pub open spec fn all_identified(entries: Seq<ScanVectorEntry>) -> bool {
    forall|i: int| 0 <= i < entries.len() ==> (#[trigger] entries[i]).vbuuid != 0
}

/// Sequence numbers for a [`Consistency::Query`] scan.
///
/// The indexer skips a vbucket whose vbuuid is zero, and the check of its
/// sequence number with it. Such a vector would be [`Consistency::Any`] under
/// another name, so no value of this type holds one.
#[derive(Debug, PartialEq, Eq)]
pub struct ScanVector {
    entries: Vec<ScanVectorEntry>,
}

impl Clone for ScanVector {
    fn clone(&self) -> (r: ScanVector)
        ensures
            r@ == self@,
    {
        proof {
            use_type_invariant(self);
        }
        let entries: Vec<ScanVectorEntry> = self.entries.clone();
        assert(entries@ =~= self.entries@);
        ScanVector { entries }
    }
}

impl View for ScanVector {
    type V = Seq<ScanVectorEntry>;

    closed spec fn view(&self) -> Seq<ScanVectorEntry> {
        self.entries@
    }
}

impl ScanVector {
    #[verifier::type_invariant]
    closed spec fn well_formed(&self) -> bool {
        all_identified(self.entries@)
    }

    /// A vector of these entries; one with a zero vbuuid among them is refused.
    pub fn new(entries: Vec<ScanVectorEntry>) -> (r: Result<ScanVector, &'static str>)
        ensures
            r is Ok <==> all_identified(entries@),
            r matches Ok(v) ==> v@ == entries@,
            r matches Err(text) ==> text@
                == "a scan vector entry with vbuuid 0 is silently ignored by the indexer"@,
    {
        let mut i: usize = 0;
        while i < entries.len()
            invariant
                i <= entries.len(),
                forall|j: int| 0 <= j < i ==> (#[trigger] entries@[j]).vbuuid != 0,
            decreases entries.len() - i,
        {
            if entries[i].vbuuid == 0 {
                assert(entries@[i as int].vbuuid == 0);
                return Err("a scan vector entry with vbuuid 0 is silently ignored by the indexer");
            }
            i += 1;
        }
        Ok(ScanVector { entries })
    }

    pub fn entries(&self) -> (r: &[ScanVectorEntry])
        ensures
            r@ == self@,
            all_identified(self@),
    {
        proof {
            use_type_invariant(self);
        }
        self.entries.as_slice()
    }

    pub fn len(&self) -> (r: usize)
        ensures
            r == self@.len(),
    {
        self.entries.len()
    }

    pub fn is_empty(&self) -> (r: bool)
        ensures
            r == (self@.len() == 0),
    {
        self.entries.len() == 0
    }

    /// How the vector stands on the wire: three lists of one length, entry by
    /// entry, and no checksum.
    pub open spec fn sent_as(&self, w: wire::TsConsistency) -> bool {
        &&& w.vbnos@ == self@.map_values(|e: ScanVectorEntry| e.vbucket as u32)
        &&& w.seqnos@ == self@.map_values(|e: ScanVectorEntry| e.seqno)
        &&& w.vbuuids@ == self@.map_values(|e: ScanVectorEntry| e.vbuuid)
        &&& w.crc64 is None
    }

    pub fn as_wire(&self) -> (r: wire::TsConsistency)
        ensures
            self.sent_as(r),
            forall|i: int| 0 <= i < r.vbuuids@.len() ==> #[trigger] r.vbuuids@[i] != 0,
    {
        proof {
            use_type_invariant(self);
        }
        let mut vbnos: Vec<u32> = Vec::new();
        let mut seqnos: Vec<u64> = Vec::new();
        let mut vbuuids: Vec<u64> = Vec::new();
        let mut i: usize = 0;
        while i < self.entries.len()
            invariant
                i <= self.entries.len(),
                all_identified(self.entries@),
                vbnos@ == self.entries@.take(i as int).map_values(
                    |e: ScanVectorEntry| e.vbucket as u32,
                ),
                seqnos@ == self.entries@.take(i as int).map_values(|e: ScanVectorEntry| e.seqno),
                vbuuids@ == self.entries@.take(i as int).map_values(|e: ScanVectorEntry| e.vbuuid),
            decreases self.entries.len() - i,
        {
            let e: ScanVectorEntry = self.entries[i];
            vbnos.push(e.vbucket as u32);
            seqnos.push(e.seqno);
            vbuuids.push(e.vbuuid);
            assert(self.entries@.take(i + 1) =~= self.entries@.take(i as int).push(e));
            i += 1;
        }
        assert(self.entries@.take(self.entries@.len() as int) =~= self.entries@);
        wire::TsConsistency { vbnos, seqnos, vbuuids, crc64: None }
    }
}

/// One index entry, as the indexer sent it. `entry_key` is absent when the
/// request projected no key columns.
#[derive(Debug, Clone, PartialEq, Eq)]
pub struct ScanEntry {
    pub entry_key: Option<Bytes>,
    pub primary_key: Bytes,
}

/// A parsed response, with every failure already lifted out.
#[derive(Debug, Clone, PartialEq, Eq)]
pub enum Response {
    Auth(AuthCode),
    Helo { version: u32 },
    Entries(Vec<ScanEntry>),
    Count(i64),
    /// The last packet of a stream. `read_units` is present only on a metered
    /// cluster.
    StreamEnd { read_units: Option<u64> },
}

impl Response {
    pub open spec fn kind_name(&self) -> Seq<char> {
        match self {
            Response::Auth(_) => "AuthResponse"@,
            Response::Helo { version: _ } => "HeloResponse"@,
            Response::Entries(_) => "ResponseStream"@,
            Response::Count(_) => "CountResponse"@,
            Response::StreamEnd { read_units: _ } => "StreamEndResponse"@,
        }
    }

    /// The name used when a response turns up where another was expected.
    pub fn kind(&self) -> (r: &'static str)
        ensures
            r@ == self.kind_name(),
    {
        match self {
            Response::Auth(_) => "AuthResponse",
            Response::Helo { version: _ } => "HeloResponse",
            Response::Entries(_) => "ResponseStream",
            Response::Count(_) => "CountResponse",
            Response::StreamEnd { read_units: _ } => "StreamEndResponse",
        }
    }

    /// The response itself where it is the one this exchange asked for, else
    /// an error that names both.
    pub fn expect_kind(self, expected: &'static str) -> (r: Result<Response, Error>)
        ensures
            self.kind_name() == expected@ ==> r == Ok::<Response, Error>(self),
            self.kind_name() != expected@ ==> {
                &&& r is Err
                &&& r->Err_0.spec_kind() matches ErrorKind::Parse(
                    ParseError::UnexpectedMessage { expected: wanted, got },
                )
                &&& wanted == expected
                &&& got@ == self.kind_name()
                &&& r->Err_0.source_text() is None
            },
    {
        let got: &'static str = self.kind();
        if same_text(got, expected) {
            Ok(self)
        } else {
            Err(Error::new_parse_error(ParseError::UnexpectedMessage { expected, got }))
        }
    }
}

/// What an error message in a response says. An empty text means success,
/// so presence of the message is not the test.
pub open spec fn refusal(err: Option<wire::Error>) -> Option<Seq<char>> {
    match err {
        Some(e) if e.error@.len() > 0 => Some(e.error@),
        _ => None,
    }
}

/// The error that a server's text becomes: the text kept, and classified.
pub open spec fn is_refusal(e: Error, text: Seq<char>) -> bool {
    &&& e.spec_kind() matches ErrorKind::Server(server)
    &&& server.raw_text() == text
    &&& server.condition() == condition_of(lowercased(text))
    &&& e.source_text() is None
}

/// The row that an entry of a response becomes: its two fields as they are.
pub open spec fn row_of(e: wire::IndexEntry) -> ScanEntry {
    ScanEntry { entry_key: e.entry_key, primary_key: e.primary_key }
}

/// Whether `r` is what a decoded payload of the right version says. The first
/// message that is set decides: rows, the end of a stream, a count, an answer
/// to credentials, a greeting.
pub open spec fn says(payload: QueryPayload, r: Result<Response, Error>) -> bool {
    if let Some(stream) = payload.stream {
        match refusal(stream.err) {
            Some(text) => r matches Err(e) && is_refusal(e, text),
            None => r matches Ok(Response::Entries(rows)) && rows@
                == stream.index_entries@.map_values(|e: wire::IndexEntry| row_of(e)),
        }
    } else if let Some(end) = payload.stream_end {
        match refusal(end.err) {
            Some(text) => r matches Err(e) && is_refusal(e, text),
            None => r == Ok::<Response, Error>(Response::StreamEnd { read_units: end.read_units }),
        }
    } else if let Some(count) = payload.count_response {
        match refusal(count.err) {
            Some(text) => r matches Err(e) && is_refusal(e, text),
            None => r == Ok::<Response, Error>(Response::Count(count.count)),
        }
    } else if let Some(auth) = payload.auth_response {
        r == Ok::<Response, Error>(Response::Auth(auth_code_of(auth.code)))
    } else if let Some(helo) = payload.helo_response {
        r == Ok::<Response, Error>(Response::Helo { version: helo.version })
    } else {
        r matches Err(e) && e.spec_kind() == ErrorKind::Parse(ParseError::UnknownPayload)
            && e.source_text() is None
    }
}

/// Reads a payload, resolving the server's own errors into `Err`. Where the
/// bytes could not be decoded into one, `payload` is what the decoder said.
pub fn decode_response(payload: Result<QueryPayload, String>) -> (r: Result<Response, Error>)
    ensures
        payload matches Err(text) ==> {
            &&& r is Err
            &&& r->Err_0.spec_kind() == ErrorKind::Parse(ParseError::Undecodable(text))
            &&& r->Err_0.source_text() is None
        },
        payload matches Ok(p) ==> if p.version != PROTOBUF_VERSION {
            r matches Err(e) && e.spec_kind() == ErrorKind::Parse(
                ParseError::UnsupportedVersion { got: p.version, expected: PROTOBUF_VERSION },
            ) && e.source_text() is None
        } else {
            says(p, r)
        },
{
    let payload: QueryPayload = match payload {
        Ok(p) => p,
        Err(text) => {
            return Err(Error::new_parse_error(ParseError::Undecodable(text)));
        },
    };
    if payload.version != PROTOBUF_VERSION {
        return Err(
            Error::new_parse_error(
                ParseError::UnsupportedVersion {
                    got: payload.version,
                    expected: PROTOBUF_VERSION,
                },
            ),
        );
    }
    if let Some(stream) = payload.stream {
        if let Err(e) = check(stream.err) {
            return Err(e);
        }
        return Ok(Response::Entries(rows_of(stream.index_entries)));
    }
    if let Some(end) = payload.stream_end {
        if let Err(e) = check(end.err) {
            return Err(e);
        }
        return Ok(Response::StreamEnd { read_units: end.read_units });
    }
    if let Some(count) = payload.count_response {
        if let Err(e) = check(count.err) {
            return Err(e);
        }
        return Ok(Response::Count(count.count));
    }
    if let Some(auth) = payload.auth_response {
        return Ok(Response::Auth(AuthCode::from(auth.code)));
    }
    if let Some(helo) = payload.helo_response {
        return Ok(Response::Helo { version: helo.version });
    }
    Err(Error::new_parse_error(ParseError::UnknownPayload))
}

fn rows_of(entries: Vec<wire::IndexEntry>) -> (r: Vec<ScanEntry>)
    ensures
        r@ == entries@.map_values(|e: wire::IndexEntry| row_of(e)),
{
    let ghost all = entries@;
    let mut rows: Vec<ScanEntry> = Vec::new();
    for e in it: entries
        invariant
            it.seq() == all,
            rows@ == all.take(it.index() as int).map_values(|e: wire::IndexEntry| row_of(e)),
    {
        rows.push(ScanEntry { entry_key: e.entry_key, primary_key: e.primary_key });
        assert(all.take(it.index() + 1) =~= all.take(it.index() as int).push(e));
    }
    assert(all.take(all.len() as int) =~= all);
    rows
}

/// Lifts an error message into a `Result`. An empty text means success.
pub fn check(err: Option<wire::Error>) -> (r: Result<(), Error>)
    ensures
        match refusal(err) {
            Some(text) => r matches Err(e) && is_refusal(e, text),
            None => r is Ok,
        },
{
    match err {
        Some(e) => {
            if e.error.as_str().is_empty() {
                Ok(())
            } else {
                Err(Error::new_server_error(ServerError::classify(e.error.as_str())))
            }
        },
        None => Ok(()),
    }
}

/// A request, already wrapped in its payload. Callers name what they want
/// through the constructors.
#[derive(Debug, Clone, PartialEq, Eq)]
pub struct Request(QueryPayload);

impl View for Request {
    type V = QueryPayload;

    closed spec fn view(&self) -> QueryPayload {
        self.0
    }
}

impl Request {
    /// What is sent.
    pub fn payload(&self) -> (r: &QueryPayload)
        ensures
            *r == self@,
    {
        &self.0
    }

    pub fn auth(user: &str, pass: &str, client_version: u32) -> (r: Request)
        ensures
            r@.auth_request is Some,
            r@.auth_request->0.user@ == user@,
            r@.auth_request->0.pass@ == pass@,
            r@.auth_request->0.client_version == Some(client_version),
            r@.version == 1,
            r@ == (QueryPayload {
                auth_request: r@.auth_request,
                ..blank_payload(PROTOBUF_VERSION)
            }),
    {
        let mut payload: QueryPayload = QueryPayload::blank(PROTOBUF_VERSION);
        payload.auth_request = Some(
            wire::AuthRequest {
                user: owned(user),
                pass: owned(pass),
                client_version: Some(client_version),
            },
        );
        Request(payload)
    }

    pub fn helo() -> (r: Request)
        ensures
            r@ == (QueryPayload {
                helo_request: Some(wire::HeloRequest { version: PROTOBUF_VERSION }),
                ..blank_payload(PROTOBUF_VERSION)
            }),
            r@.version == 1,
            r@.helo_request->0.version == 1,
    {
        let mut payload: QueryPayload = QueryPayload::blank(PROTOBUF_VERSION);
        payload.helo_request = Some(wire::HeloRequest { version: PROTOBUF_VERSION });
        Request(payload)
    }

    /// A count over the whole of an index. The span that the schema demands is
    /// sent without bounds, which is how every entry is spelled.
    pub fn count_all(defn_id: u64, consistency: Consistency, partitions: Vec<u64>) -> (r: Request)
        ensures
            r@.count_request matches Some(count) && {
                &&& count.defn_id == defn_id
                &&& count.span.is_unbounded()
                &&& count.cons == consistency.wire_value()
                &&& consistency.sends(count.ts_vector)
                &&& count.partition_ids == partitions
                &&& count.cons == 1 <==> consistency is Any
                &&& count.cons == 2 <==> consistency is Session
                &&& count.cons == 3 <==> consistency is Query
            },
            r@.version == 1,
            r@ == (QueryPayload {
                count_request: r@.count_request,
                ..blank_payload(PROTOBUF_VERSION)
            }),
    {
        let mut payload: QueryPayload = QueryPayload::blank(PROTOBUF_VERSION);
        payload.count_request = Some(
            wire::CountRequest {
                defn_id,
                span: wire::Span::unbounded(),
                cons: consistency.as_wire(),
                ts_vector: consistency.vector(),
                partition_ids: partitions,
            },
        );
        Request(payload)
    }

    /// Asks the server to stop streaming. What is already on its way still
    /// arrives.
    pub fn end_stream() -> (r: Request)
        ensures
            r@ == (QueryPayload {
                end_stream: Some(wire::EndStreamRequest {  }),
                ..blank_payload(PROTOBUF_VERSION)
            }),
            r@.version == 1,
    {
        let mut payload: QueryPayload = QueryPayload::blank(PROTOBUF_VERSION);
        payload.end_stream = Some(wire::EndStreamRequest {  });
        Request(payload)
    }

    /// A scan.
    pub fn scan(opts: ScanOptions) -> (r: Request)
        ensures
            r@.scan_request matches Some(scan) && asks_for(scan, opts),
            r@.version == 1,
            r@ == (QueryPayload {
                scan_request: r@.scan_request,
                ..blank_payload(PROTOBUF_VERSION)
            }),
    {
        let mut payload: QueryPayload = QueryPayload::blank(PROTOBUF_VERSION);
        payload.scan_request = Some(
            wire::ScanRequest {
                defn_id: opts.defn_id,
                span: wire::Span::unbounded(),
                distinct: opts.distinct,
                limit: opts.limit,
                cons: opts.consistency.as_wire(),
                ts_vector: opts.consistency.vector(),
                request_id: Some(opts.request_id),
                scans: scans_to_wire(opts.scans),
                indexprojection: match opts.projection {
                    Some(p) => Some(
                        wire::IndexProjection {
                            entry_keys: p.entry_keys,
                            primary_key: Some(p.primary_key),
                        },
                    ),
                    None => None,
                },
                reverse: None,
                offset: Some(opts.offset),
                partition_ids: opts.partitions,
                sorted: Some(true),
                data_enc_fmt: Some(opts.data_encoding.as_wire()),
                user: opts.user,
                req_timeout: match opts.timeout {
                    Some(budget) => {
                        let millis: u128 = nanos_of(budget) / 1_000_000;
                        Some(
                            if millis > 0x7fff_ffff_ffff_ffff {
                                i64::MAX
                            } else {
                                millis as i64
                            },
                        )
                    },
                    None => None,
                },
            },
        );
        Request(payload)
    }
}

/// A budget as it is sent: in whole milliseconds, cut at what the field can
/// hold.
pub open spec fn sent_millis(budget: Duration) -> i64 {
    let millis = nanos_in(budget) / 1_000_000;
    if millis > i64::MAX {
        i64::MAX
    } else {
        millis as i64
    }
}

/// What a scan request says of the options it was made from. The bounds are in
/// `scans`, so the span is sent without any; rows are asked for in index
/// order, and never in reverse.
pub open spec fn asks_for(scan: wire::ScanRequest, opts: ScanOptions) -> bool {
    &&& scan.defn_id == opts.defn_id
    &&& scan.span.is_unbounded()
    &&& scan.distinct == opts.distinct
    &&& scan.limit == opts.limit
    &&& scan.cons == opts.consistency.wire_value()
    &&& opts.consistency.sends(scan.ts_vector)
    &&& scan.request_id == Some(opts.request_id)
    &&& scan.scans@.len() == opts.scans@.len()
    &&& forall|i: int|
        0 <= i < opts.scans@.len() ==> bounds_sent(#[trigger] opts.scans@[i], scan.scans@[i])
    &&& scan.indexprojection == (match opts.projection {
        Some(p) => Some(
            wire::IndexProjection { entry_keys: p.entry_keys, primary_key: Some(p.primary_key) },
        ),
        None => None,
    })
    &&& scan.reverse is None
    &&& scan.offset == Some(opts.offset)
    &&& scan.partition_ids == opts.partitions
    &&& scan.sorted == Some(true)
    &&& scan.data_enc_fmt == Some(opts.data_encoding.wire_value())
    &&& scan.user == opts.user
    &&& scan.req_timeout == (match opts.timeout {
        Some(budget) => Some(sent_millis(budget)),
        None => None,
    })
}

/// One key position's bounds as they are sent: an unbounded end is absent.
pub open spec fn filter_sent(f: Filter) -> wire::CompositeElementFilter {
    wire::CompositeElementFilter {
        low: f.low,
        high: f.high,
        inclusion: f.inclusion.wire_value(),
    }
}

/// One run's bounds as they are sent.
pub open spec fn bounds_sent(scan: Scan, w: wire::Scan) -> bool {
    &&& w.equals == scan.equals
    &&& w.filters@ == scan.filters@.map_values(|f: Filter| filter_sent(f))
}

pub fn scan_to_wire(scan: Scan) -> (r: wire::Scan)
    ensures
        bounds_sent(scan, r),
{
    let ghost all = scan.filters@;
    let mut filters: Vec<wire::CompositeElementFilter> = Vec::new();
    for f in it: scan.filters
        invariant
            it.seq() == all,
            filters@ == all.take(it.index() as int).map_values(|f: Filter| filter_sent(f)),
    {
        let inclusion: u32 = f.inclusion.as_wire();
        filters.push(wire::CompositeElementFilter { low: f.low, high: f.high, inclusion });
        assert(all.take(it.index() + 1) =~= all.take(it.index() as int).push(f));
    }
    assert(all.take(all.len() as int) =~= all);
    wire::Scan { filters, equals: scan.equals }
}

fn scans_to_wire(scans: Vec<Scan>) -> (r: Vec<wire::Scan>)
    ensures
        r@.len() == scans@.len(),
        forall|i: int| 0 <= i < scans@.len() ==> bounds_sent(#[trigger] scans@[i], r@[i]),
{
    let ghost all = scans@;
    let mut r: Vec<wire::Scan> = Vec::new();
    for s in it: scans
        invariant
            it.seq() == all,
            r@.len() == it.index(),
            forall|i: int| 0 <= i < it.index() ==> bounds_sent(#[trigger] all[i], r@[i]),
    {
        r.push(scan_to_wire(s));
    }
    r
}

/// Everything a scan needs, in this client's vocabulary rather than the wire's.
#[derive(Debug)]
pub struct ScanOptions {
    pub defn_id: u64,
    /// Echoed into the indexer's own logs.
    pub request_id: String,
    /// The partitions this node holds. Empty for an index that is not
    /// partitioned.
    pub partitions: Vec<u64>,
    pub consistency: Consistency,
    /// A disjunction: several runs of entries, read as one stream.
    pub scans: Vec<Scan>,
    pub projection: Option<Projection>,
    /// Deduplicate on the index key, not the document key.
    pub distinct: bool,
    pub offset: i64,
    /// `i64::MAX` for unbounded.
    pub limit: i64,
    pub data_encoding: DataEncoding,
    /// The end user this scan runs on behalf of.
    pub user: Option<String>,
    /// A wall-clock budget for the whole scan. `None` leaves the server's own.
    pub timeout: Option<Duration>,
}

impl ScanOptions {
    /// Every entry of an index, document keys only, read-your-own-writes.
    pub fn new(defn_id: u64, request_id: &str) -> (r: ScanOptions)
        ensures
            r.defn_id == defn_id,
            r.request_id@ == request_id@,
            r.partitions@.len() == 0,
            r.consistency == Consistency::Session,
            r.scans@.len() == 1,
            r.scans@[0].filters@.len() == 0 && r.scans@[0].equals@.len() == 0,
            r.projection matches Some(p) && p.entry_keys@.len() == 0 && p.primary_key,
            !r.distinct,
            r.offset == 0,
            r.limit == i64::MAX,
            r.data_encoding == DataEncoding::Json,
            r.user is None,
            r.timeout is None,
    {
        let mut scans: Vec<Scan> = Vec::new();
        scans.push(Scan::all());
        ScanOptions {
            defn_id,
            request_id: owned(request_id),
            partitions: Vec::new(),
            consistency: Consistency::Session,
            scans,
            projection: Some(Projection::keys_only()),
            distinct: false,
            offset: 0,
            limit: i64::MAX,
            data_encoding: DataEncoding::Json,
            user: None,
            timeout: None,
        }
    }
}

/// A response in hand is one that succeeded: whatever message it was read from,
/// the server put no error beside it.
pub proof fn a_response_in_hand_is_one_that_succeeded(payload: QueryPayload, response: Response)
    requires
        says(payload, Ok(response)),
    ensures
        response is Entries ==> (payload.stream matches Some(stream) && refusal(stream.err) is None),
        response is StreamEnd ==> (payload.stream_end matches Some(end) && refusal(end.err)
            is None),
        response is Count ==> (payload.count_response matches Some(count) && refusal(count.err)
            is None),
{
}

/// The three levels go out as 1, 2 and 3, which is what the indexer reads them
/// as, and a vector goes out beside the last of them alone.
pub proof fn a_level_is_sent_as_its_number(level: Consistency, ts: Option<wire::TsConsistency>)
    requires
        level.sends(ts),
    ensures
        level.wire_value() == 1 <==> level is Any,
        level.wire_value() == 2 <==> level is Session,
        level.wire_value() == 3 <==> level is Query,
        ts is Some <==> level is Query,
        level matches Consistency::Query(v) ==> {
            &&& ts->0.vbnos@.len() == v@.len()
            &&& ts->0.seqnos@.len() == v@.len()
            &&& ts->0.vbuuids@.len() == v@.len()
            &&& forall|i: int|
                0 <= i < v@.len() ==> (#[trigger] ts->0.vbnos@[i]) == v@[i].vbucket
                    && ts->0.seqnos@[i] == v@[i].seqno && ts->0.vbuuids@[i] == v@[i].vbuuid
            &&& ts->0.crc64 is None
        },
{
}

/// A scan request carries its options field by field: nothing is left out,
/// nothing changes its place, and the numbers that stand for a level, an
/// encoding and the ends of a range are those the indexer reads.
pub proof fn a_scan_request_carries_its_options(scan: wire::ScanRequest, opts: ScanOptions)
    requires
        asks_for(scan, opts),
    ensures
        scan.defn_id == opts.defn_id,
        scan.partition_ids@ == opts.partitions@,
        scan.request_id matches Some(id) && id@ == opts.request_id@,
        scan.distinct == opts.distinct,
        scan.limit == opts.limit,
        scan.offset == Some(opts.offset),
        scan.user == opts.user,
        scan.sorted == Some(true),
        scan.reverse is None,
        scan.span.range is None,
        scan.span.equals@.len() == 0,
        scan.cons == 1 <==> opts.consistency is Any,
        scan.cons == 2 <==> opts.consistency is Session,
        scan.cons == 3 <==> opts.consistency is Query,
        scan.ts_vector is Some <==> opts.consistency is Query,
        scan.data_enc_fmt == Some(0u32) <==> opts.data_encoding is Json,
        scan.data_enc_fmt == Some(1u32) <==> opts.data_encoding is CollateJson,
        opts.projection is None ==> scan.indexprojection is None,
        opts.projection matches Some(p) ==> (scan.indexprojection matches Some(w) && w.entry_keys@
            == p.entry_keys@ && w.primary_key == Some(p.primary_key)),
        opts.timeout is None ==> scan.req_timeout is None,
        opts.timeout matches Some(budget) ==> (scan.req_timeout matches Some(ms) && 0 <= ms && ms
            * 1_000_000 <= nanos_in(budget) && (ms < i64::MAX ==> nanos_in(budget) < (ms + 1)
            * 1_000_000)),
        scan.scans@.len() == opts.scans@.len(),
        forall|i: int, j: int|
            0 <= i < opts.scans@.len() && 0 <= j < opts.scans@[i].filters@.len() ==> {
                let asked = #[trigger] opts.scans@[i].filters@[j];
                let sent = scan.scans@[i].filters@[j];
                &&& sent.low == asked.low
                &&& sent.high == asked.high
                &&& sent.inclusion % 2 == 1 <==> (asked.inclusion is Low || asked.inclusion is Both)
                &&& sent.inclusion / 2 == 1 <==> (asked.inclusion is High || asked.inclusion
                    is Both)
                &&& sent.inclusion < 4
            },
        forall|i: int|
            0 <= i < opts.scans@.len() ==> {
                &&& (#[trigger] scan.scans@[i]).filters@.len() == opts.scans@[i].filters@.len()
                &&& scan.scans@[i].equals@ == opts.scans@[i].equals@
            },
{
    assert forall|i: int, j: int|
        0 <= i < opts.scans@.len() && 0 <= j < opts.scans@[i].filters@.len() implies {
        let asked = #[trigger] opts.scans@[i].filters@[j];
        let sent = scan.scans@[i].filters@[j];
        &&& sent.low == asked.low
        &&& sent.high == asked.high
        &&& sent.inclusion % 2 == 1 <==> (asked.inclusion is Low || asked.inclusion is Both)
        &&& sent.inclusion / 2 == 1 <==> (asked.inclusion is High || asked.inclusion is Both)
        &&& sent.inclusion < 4
    } by {
        assert(bounds_sent(opts.scans@[i], scan.scans@[i]));
    }
    assert forall|i: int| 0 <= i < opts.scans@.len() implies {
        &&& (#[trigger] scan.scans@[i]).filters@.len() == opts.scans@[i].filters@.len()
        &&& scan.scans@[i].equals@ == opts.scans@[i].equals@
    } by {
        assert(bounds_sent(opts.scans@[i], scan.scans@[i]));
    }
}

/// What a message says is what stands in it. Rows go before the end of a
/// stream, that before a count, that before the answer to credentials, and a
/// greeting comes last; an error text beside any of the first three is the
/// answer, and an empty one is none.
pub proof fn a_message_says_what_stands_in_it(payload: QueryPayload, r: Result<Response, Error>)
    requires
        says(payload, r),
    ensures
        payload.stream matches Some(stream) ==> {
            let refused = stream.err is Some && stream.err->0.error@.len() > 0;
            &&& r is Err <==> refused
            &&& r matches Err(e) ==> (e.spec_kind() matches ErrorKind::Server(s) && s.raw_text()
                == stream.err->0.error@)
            &&& r matches Ok(said) ==> (said matches Response::Entries(rows) && rows@.len()
                == stream.index_entries@.len() && forall|i: int|
                0 <= i < rows@.len() ==> (#[trigger] rows@[i]).entry_key
                    == stream.index_entries@[i].entry_key && rows@[i].primary_key
                    == stream.index_entries@[i].primary_key)
        },
        payload.stream is None ==> (payload.stream_end matches Some(end) ==> {
            let refused = end.err is Some && end.err->0.error@.len() > 0;
            &&& r is Err <==> refused
            &&& r matches Err(e) ==> (e.spec_kind() matches ErrorKind::Server(s) && s.raw_text()
                == end.err->0.error@)
            &&& r matches Ok(said) ==> (said matches Response::StreamEnd { read_units }
                && read_units == end.read_units)
        }),
        payload.stream is None && payload.stream_end is None ==> (
        payload.count_response matches Some(count) ==> {
            let refused = count.err is Some && count.err->0.error@.len() > 0;
            &&& r is Err <==> refused
            &&& r matches Err(e) ==> (e.spec_kind() matches ErrorKind::Server(s) && s.raw_text()
                == count.err->0.error@)
            &&& r matches Ok(said) ==> (said matches Response::Count(n) && n == count.count)
        }),
        payload.stream is None && payload.stream_end is None && payload.count_response is None ==> (
        payload.auth_response matches Some(auth) ==> {
            &&& r matches Ok(Response::Auth(code))
            &&& code is Success <==> auth.code == 1
            &&& code is Missing <==> auth.code == 3
            &&& code is Failure <==> auth.code == 2
            &&& code matches AuthCode::Unknown(n) ==> n == auth.code
        }),
        payload.stream is None && payload.stream_end is None && payload.count_response is None
            && payload.auth_response is None ==> (payload.helo_response matches Some(helo) ==> (
        r matches Ok(Response::Helo { version }) && version == helo.version)),
        payload.stream is None && payload.stream_end is None && payload.count_response is None
            && payload.auth_response is None && payload.helo_response is None ==> (
        r matches Err(e) && e.spec_kind() == ErrorKind::Parse(ParseError::UnknownPayload)),
{
}

/// A response goes by the name of the message it came in.
pub proof fn a_response_goes_by_its_message(r: Response)
    ensures
        r is Auth ==> r.kind_name() == "AuthResponse"@,
        r is Helo ==> r.kind_name() == "HeloResponse"@,
        r is Entries ==> r.kind_name() == "ResponseStream"@,
        r is Count ==> r.kind_name() == "CountResponse"@,
        r is StreamEnd ==> r.kind_name() == "StreamEndResponse"@,
{
}

/// A message that cannot be used says what it was and what was expected, each
/// in its place.
pub proof fn a_parse_error_names_both_sides(e: ParseError)
    ensures
        e matches ParseError::Undecodable(text) ==> e.text() == "malformed QueryPayload: "@ + text@,
        e is UnknownPayload ==> e.text()
            == "QueryPayload carried no message this client recognises"@,
        e matches ParseError::UnsupportedVersion { got, expected } ==> e.text()
            == "protocol version "@ + decimal(got as nat) + " is not the expected "@ + decimal(
            expected as nat,
        ),
        e matches ParseError::UnexpectedMessage { expected, got } ==> e.text() == "expected a "@
            + expected@ + " but the server sent a "@ + got@,
{
}

/// A budget goes out in whole milliseconds, never more than it is and less by
/// under one, and as the largest number there is where it does not fit.
pub proof fn a_budget_is_sent_in_whole_milliseconds(budget: Duration)
    ensures
        0 <= sent_millis(budget) <= 0x7fff_ffff_ffff_ffff,
        sent_millis(budget) * 1_000_000 <= nanos_in(budget),
        sent_millis(budget) < 0x7fff_ffff_ffff_ffff ==> nanos_in(budget) < sent_millis(budget)
            * 1_000_000 + 1_000_000,
{
}

/// A run goes out with the bounds it has: each position with its low end, its
/// high end and which of the two belong to it, and an exact key as it is.
pub proof fn a_run_goes_out_with_its_bounds(scan: Scan, w: wire::Scan, i: int)
    requires
        bounds_sent(scan, w),
    ensures
        w.equals == scan.equals,
        w.filters@.len() == scan.filters@.len(),
        0 <= i < w.filters@.len() ==> w.filters@[i].low == scan.filters@[i].low
            && w.filters@[i].high == scan.filters@[i].high,
        0 <= i < w.filters@.len() ==> (w.filters@[i].inclusion % 2 == 1
            <==> scan.filters@[i].inclusion is Low || scan.filters@[i].inclusion is Both),
        0 <= i < w.filters@.len() ==> (w.filters@[i].inclusion / 2 == 1
            <==> scan.filters@[i].inclusion is High || scan.filters@[i].inclusion is Both),
{
}

} // verus!
