//! The requests of the key-value protocol and what answers them.
use vstd::prelude::*;
use crate::memdx;
use crate::memdx::{DataTypeFlag, LookupInOp, MutateInOp};

verus! {

/// Where a mutation stands, as the server says it: the vbucket is the one that
/// was asked.
#[derive(Debug, Clone, Copy, PartialEq, Eq, Structural)]
pub struct WireToken {
    pub vbuuid: u64,
    pub seqno: u64,
}

/// What became of one part of a document.
#[derive(Debug)]
pub struct SubDocAnswer {
    pub err: Option<memdx::Error>,
    pub value: Option<Vec<u8>>,
}

/// The sequence number of one vbucket.
#[derive(Debug, Clone, Copy, PartialEq, Eq, Structural)]
pub struct VbSeqno {
    pub vbucket: u16,
    pub seqno: u64,
}

/// Which vbuckets a node is to answer for.
#[derive(Debug, Clone, Copy, PartialEq, Eq, Structural)]
pub enum RequestedVbState {
    Active,
    Replica,
}

#[derive(Debug)]
pub struct GetAllVbSeqnosRequest {
    pub state: RequestedVbState,
    pub collection_id: Option<u32>,
    pub on_behalf_of: Option<String>,
}

#[derive(Debug)]
pub struct GetCollectionIdRequest<'a> {
    pub scope_name: &'a str,
    pub collection_name: &'a str,
}

#[derive(Debug)]
pub struct GetCollectionIdResponse {
    pub collection_id: u32,
    pub manifest_rev: u64,
}

#[derive(Debug)]
pub struct StatsRequest<'a> {
    pub group_name: &'a str,
    pub on_behalf_of: Option<&'a str>,
}

#[derive(Debug)]
pub struct RangeScanConfig<R, S, N> {
    pub collection_id: u32,
    pub keys_only: bool,
    pub range: R,
    pub sampling: S,
    pub snapshot: N,
}

#[derive(Debug)]
pub struct RangeScanCreateRequest<'a, R, S, N> {
    pub vbucket_id: u16,
    pub config: RangeScanConfig<R, S, N>,
    pub on_behalf_of: Option<&'a str>,
}

#[derive(Debug)]
pub struct SetRequest<'a> {
    pub collection_id: u32,
    pub key: &'a [u8],
    pub vbucket_id: u16,
    pub flags: u32,
    pub value: Vec<u8>,
    pub datatype: DataTypeFlag,
    pub expiry: Option<u32>,
    pub preserve_expiry: Option<bool>,
    pub cas: Option<u64>,
    pub on_behalf_of: Option<&'a str>,
    pub durability_level: Option<u8>,
    pub durability_level_timeout: Option<u32>,
}

#[derive(Debug)]
pub struct SetResponse {
    pub cas: u64,
    pub mutation_token: Option<WireToken>,
}

#[derive(Debug)]
pub struct GetRequest<'a> {
    pub collection_id: u32,
    pub key: &'a [u8],
    pub vbucket_id: u16,
    pub on_behalf_of: Option<&'a str>,
}

#[derive(Debug)]
pub struct GetResponse {
    pub value: Vec<u8>,
    pub datatype: DataTypeFlag,
    pub cas: u64,
    pub flags: u32,
}

#[derive(Debug)]
pub struct GetMetaRequest<'a> {
    pub collection_id: u32,
    pub key: &'a [u8],
    pub vbucket_id: u16,
    pub on_behalf_of: Option<&'a str>,
}

#[derive(Debug)]
pub struct GetMetaResponse {
    pub value: Vec<u8>,
    pub datatype: DataTypeFlag,
    pub server_duration: Option<u64>,
    pub expiry: u32,
    pub seq_no: u64,
    pub cas: u64,
    pub flags: u32,
    pub deleted: bool,
}

#[derive(Debug)]
pub struct DeleteRequest<'a> {
    pub collection_id: u32,
    pub key: &'a [u8],
    pub vbucket_id: u16,
    pub cas: Option<u64>,
    pub on_behalf_of: Option<&'a str>,
    pub durability_level: Option<u8>,
    pub durability_level_timeout: Option<u32>,
}

#[derive(Debug)]
pub struct DeleteResponse {
    pub cas: u64,
    pub mutation_token: Option<WireToken>,
}

#[derive(Debug)]
pub struct GetAndLockRequest<'a> {
    pub collection_id: u32,
    pub key: &'a [u8],
    pub vbucket_id: u16,
    pub lock_time: u32,
    pub on_behalf_of: Option<&'a str>,
}

#[derive(Debug)]
pub struct GetAndLockResponse {
    pub value: Vec<u8>,
    pub datatype: DataTypeFlag,
    pub cas: u64,
    pub flags: u32,
}

#[derive(Debug)]
pub struct GetAndTouchRequest<'a> {
    pub collection_id: u32,
    pub key: &'a [u8],
    pub vbucket_id: u16,
    pub expiry: u32,
    pub on_behalf_of: Option<&'a str>,
}

#[derive(Debug)]
pub struct GetAndTouchResponse {
    pub value: Vec<u8>,
    pub datatype: DataTypeFlag,
    pub cas: u64,
    pub flags: u32,
}

#[derive(Debug)]
pub struct UnlockRequest<'a> {
    pub collection_id: u32,
    pub key: &'a [u8],
    pub vbucket_id: u16,
    pub cas: u64,
    pub on_behalf_of: Option<&'a str>,
}

#[derive(Debug)]
pub struct UnlockResponse {}

#[derive(Debug)]
pub struct TouchRequest<'a> {
    pub collection_id: u32,
    pub key: &'a [u8],
    pub vbucket_id: u16,
    pub expiry: u32,
    pub on_behalf_of: Option<&'a str>,
}

#[derive(Debug)]
pub struct TouchResponse {
    pub cas: u64,
}

#[derive(Debug)]
pub struct AddRequest<'a> {
    pub collection_id: u32,
    pub key: &'a [u8],
    pub vbucket_id: u16,
    pub flags: u32,
    pub value: Vec<u8>,
    pub datatype: DataTypeFlag,
    pub expiry: Option<u32>,
    pub on_behalf_of: Option<&'a str>,
    pub durability_level: Option<u8>,
    pub durability_level_timeout: Option<u32>,
}

#[derive(Debug)]
pub struct AddResponse {
    pub cas: u64,
    pub mutation_token: Option<WireToken>,
}

#[derive(Debug)]
pub struct ReplaceRequest<'a> {
    pub collection_id: u32,
    pub key: &'a [u8],
    pub vbucket_id: u16,
    pub flags: u32,
    pub value: Vec<u8>,
    pub datatype: DataTypeFlag,
    pub expiry: Option<u32>,
    pub preserve_expiry: Option<bool>,
    pub cas: Option<u64>,
    pub on_behalf_of: Option<&'a str>,
    pub durability_level: Option<u8>,
    pub durability_level_timeout: Option<u32>,
}

#[derive(Debug)]
pub struct ReplaceResponse {
    pub cas: u64,
    pub mutation_token: Option<WireToken>,
}

#[derive(Debug)]
pub struct AppendRequest<'a> {
    pub collection_id: u32,
    pub key: &'a [u8],
    pub vbucket_id: u16,
    pub value: Vec<u8>,
    pub datatype: DataTypeFlag,
    pub cas: Option<u64>,
    pub on_behalf_of: Option<&'a str>,
    pub durability_level: Option<u8>,
    pub durability_level_timeout: Option<u32>,
}

#[derive(Debug)]
pub struct AppendResponse {
    pub cas: u64,
    pub mutation_token: Option<WireToken>,
}

#[derive(Debug)]
pub struct PrependRequest<'a> {
    pub collection_id: u32,
    pub key: &'a [u8],
    pub vbucket_id: u16,
    pub value: Vec<u8>,
    pub datatype: DataTypeFlag,
    pub cas: Option<u64>,
    pub on_behalf_of: Option<&'a str>,
    pub durability_level: Option<u8>,
    pub durability_level_timeout: Option<u32>,
}

#[derive(Debug)]
pub struct PrependResponse {
    pub cas: u64,
    pub mutation_token: Option<WireToken>,
}

#[derive(Debug)]
pub struct IncrementRequest<'a> {
    pub collection_id: u32,
    pub key: &'a [u8],
    pub vbucket_id: u16,
    pub initial: Option<u64>,
    pub delta: Option<u64>,
    pub expiry: Option<u32>,
    pub on_behalf_of: Option<&'a str>,
    pub durability_level: Option<u8>,
    pub durability_level_timeout: Option<u32>,
}

#[derive(Debug)]
pub struct IncrementResponse {
    pub cas: u64,
    pub value: u64,
    pub mutation_token: Option<WireToken>,
}

#[derive(Debug)]
pub struct DecrementRequest<'a> {
    pub collection_id: u32,
    pub key: &'a [u8],
    pub vbucket_id: u16,
    pub initial: Option<u64>,
    pub delta: Option<u64>,
    pub expiry: Option<u32>,
    pub on_behalf_of: Option<&'a str>,
    pub durability_level: Option<u8>,
    pub durability_level_timeout: Option<u32>,
}

#[derive(Debug)]
pub struct DecrementResponse {
    pub cas: u64,
    pub value: u64,
    pub mutation_token: Option<WireToken>,
}

#[derive(Debug)]
pub struct LookupInRequest<'a> {
    pub collection_id: u32,
    pub key: &'a [u8],
    pub vbucket_id: u16,
    pub flags: Option<u8>,
    pub ops: &'a [LookupInOp<'a>],
    pub on_behalf_of: Option<&'a str>,
}

#[derive(Debug)]
pub struct LookupInResponse {
    pub ops: Vec<SubDocAnswer>,
    pub cas: u64,
    pub doc_is_deleted: bool,
}

#[derive(Debug)]
pub struct MutateInRequest<'a> {
    pub collection_id: u32,
    pub key: &'a [u8],
    pub vbucket_id: u16,
    pub flags: Option<u8>,
    pub ops: &'a [MutateInOp<'a>],
    pub expiry: Option<u32>,
    pub preserve_expiry: Option<bool>,
    pub cas: Option<u64>,
    pub on_behalf_of: Option<&'a str>,
    pub durability_level: Option<u8>,
    pub durability_level_timeout: Option<u32>,
}

#[derive(Debug)]
pub struct MutateInResponse {
    pub ops: Vec<SubDocAnswer>,
    pub cas: u64,
    pub mutation_token: Option<WireToken>,
}

} // verus!
