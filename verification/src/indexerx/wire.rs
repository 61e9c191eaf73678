//! The messages of the scan protocol, field by field as their schema names
//! them. Turning them into bytes and back is the program's part.
use bytes::Bytes;
use vstd::prelude::*;

verus! {

#[derive(Debug, Clone, PartialEq, Eq)]
pub struct AuthRequest {
    pub user: String,
    pub pass: String,
    pub client_version: Option<u32>,
}

#[derive(Debug, Clone, Copy, PartialEq, Eq)]
pub struct AuthResponse {
    pub code: u32,
}

#[derive(Debug, Clone, Copy, PartialEq, Eq)]
pub struct HeloRequest {
    pub version: u32,
}

#[derive(Debug, Clone, Copy, PartialEq, Eq)]
pub struct HeloResponse {
    pub version: u32,
}

#[derive(Debug, Clone, PartialEq, Eq)]
pub struct Error {
    pub error: String,
}

#[derive(Debug, Clone, PartialEq, Eq)]
pub struct Range {
    pub low: Option<Vec<u8>>,
    pub high: Option<Vec<u8>>,
    pub inclusion: u32,
}

#[derive(Debug, Clone, PartialEq, Eq)]
pub struct Span {
    pub range: Option<Range>,
    pub equals: Vec<Vec<u8>>,
}

#[derive(Debug, Clone, PartialEq, Eq)]
pub struct TsConsistency {
    pub vbnos: Vec<u32>,
    pub seqnos: Vec<u64>,
    pub vbuuids: Vec<u64>,
    pub crc64: Option<u64>,
}

#[derive(Debug, Clone, PartialEq, Eq)]
pub struct CompositeElementFilter {
    pub low: Option<Vec<u8>>,
    pub high: Option<Vec<u8>>,
    pub inclusion: u32,
}

#[derive(Debug, Clone, PartialEq, Eq)]
pub struct Scan {
    pub filters: Vec<CompositeElementFilter>,
    pub equals: Vec<Vec<u8>>,
}

#[derive(Debug, Clone, PartialEq, Eq)]
pub struct IndexProjection {
    pub entry_keys: Vec<i64>,
    pub primary_key: Option<bool>,
}

#[derive(Debug, Clone, PartialEq, Eq)]
pub struct CountRequest {
    pub defn_id: u64,
    pub span: Span,
    pub cons: u32,
    pub ts_vector: Option<TsConsistency>,
    pub partition_ids: Vec<u64>,
}

#[derive(Debug, Clone, PartialEq, Eq)]
pub struct CountResponse {
    pub count: i64,
    pub err: Option<Error>,
}

#[derive(Debug, Clone, PartialEq, Eq)]
pub struct ScanRequest {
    pub defn_id: u64,
    pub span: Span,
    pub distinct: bool,
    pub limit: i64,
    pub cons: u32,
    pub ts_vector: Option<TsConsistency>,
    pub request_id: Option<String>,
    pub scans: Vec<Scan>,
    pub indexprojection: Option<IndexProjection>,
    pub reverse: Option<bool>,
    pub offset: Option<i64>,
    pub partition_ids: Vec<u64>,
    pub sorted: Option<bool>,
    pub data_enc_fmt: Option<u32>,
    pub user: Option<String>,
    pub req_timeout: Option<i64>,
}

#[derive(Debug, Clone, PartialEq, Eq)]
pub struct IndexEntry {
    pub entry_key: Option<Bytes>,
    pub primary_key: Bytes,
}

#[derive(Debug, Clone, PartialEq, Eq)]
pub struct ResponseStream {
    pub index_entries: Vec<IndexEntry>,
    pub err: Option<Error>,
}

#[derive(Debug, Clone, PartialEq, Eq)]
pub struct StreamEndResponse {
    pub err: Option<Error>,
    pub read_units: Option<u64>,
}

#[derive(Debug, Clone, Copy, PartialEq, Eq)]
pub struct EndStreamRequest {}

/// The wrapper around every message. At most one of the messages is set in
/// practice; the type does not say so.
#[derive(Debug, Clone, PartialEq, Eq)]
pub struct QueryPayload {
    pub version: u32,
    pub scan_request: Option<ScanRequest>,
    pub stream: Option<ResponseStream>,
    pub count_request: Option<CountRequest>,
    pub count_response: Option<CountResponse>,
    pub end_stream: Option<EndStreamRequest>,
    pub stream_end: Option<StreamEndResponse>,
    pub helo_request: Option<HeloRequest>,
    pub helo_response: Option<HeloResponse>,
    pub auth_request: Option<AuthRequest>,
    pub auth_response: Option<AuthResponse>,
}

/// A wrapper with no message in it.
pub open spec fn blank_payload(version: u32) -> QueryPayload {
    QueryPayload {
        version,
        scan_request: None,
        stream: None,
        count_request: None,
        count_response: None,
        end_stream: None,
        stream_end: None,
        helo_request: None,
        helo_response: None,
        auth_request: None,
        auth_response: None,
    }
}

impl QueryPayload {
    /// A wrapper with no message in it.
    pub fn blank(version: u32) -> (r: QueryPayload)
        ensures
            r == blank_payload(version),
    {
        QueryPayload {
            version,
            scan_request: None,
            stream: None,
            count_request: None,
            count_response: None,
            end_stream: None,
            stream_end: None,
            helo_request: None,
            helo_response: None,
            auth_request: None,
            auth_response: None,
        }
    }
}

impl Span {
    /// No bounds at all.
    pub fn unbounded() -> (r: Span)
        ensures
            r.is_unbounded(),
    {
        Span { range: None, equals: Vec::new() }
    }

    pub open spec fn is_unbounded(&self) -> bool {
        self.range is None && self.equals@.len() == 0
    }
}

} // verus!
