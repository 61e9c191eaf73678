//! What the key-value operations give their callers.
use vstd::prelude::*;
use crate::error::MemdxError;
use crate::memdx::DataTypeFlag;
use crate::mutationtoken::MutationToken;

verus! {

/// What became of one part of a document.
#[derive(Debug)]
pub struct SubDocResult {
    pub err: Option<MemdxError>,
    pub value: Option<Vec<u8>>,
}

#[derive(Debug)]
pub struct GetCollectionIdResult {
    pub collection_id: u32,
    pub manifest_rev: u64,
}

/// One line of a node's statistics.
#[derive(Debug)]
pub struct StatsEntry {
    pub endpoint: String,
    pub key: Vec<u8>,
    pub value: Vec<u8>,
}

/// How many nodes were asked, and how many lines came back.
#[derive(Debug, Clone, Copy, PartialEq, Eq, Structural)]
pub struct StatsResult {
    pub endpoints: usize,
    pub entries: usize,
}

/// What the nodes measure of one collection.
#[derive(Debug, Clone, Copy, PartialEq, Eq, Structural)]
pub struct CollectionStats {
    pub count: u64,
    pub size: u64,
}

impl Default for CollectionStats {
    fn default() -> (r: CollectionStats)
        ensures
            r == (CollectionStats { count: 0, size: 0 }),
    {
        CollectionStats { count: 0, size: 0 }
    }
}

#[derive(Debug)]
pub struct UpsertResult {
    pub cas: u64,
    pub mutation_token: Option<MutationToken>,
}

#[derive(Debug)]
pub struct GetResult {
    pub value: Vec<u8>,
    pub datatype: DataTypeFlag,
    pub cas: u64,
    pub flags: u32,
}

#[derive(Debug)]
pub struct GetMetaResult {
    pub value: Vec<u8>,
    pub datatype: DataTypeFlag,
    pub server_duration: Option<u64>,
    pub expiry: u32,
    pub seq_no: u64,
    pub cas: u64,
    pub flags: u32,
    pub deleted: bool,
}

#[derive(Debug)]
pub struct DeleteResult {
    pub cas: u64,
    pub mutation_token: Option<MutationToken>,
}

#[derive(Debug)]
pub struct GetAndLockResult {
    pub value: Vec<u8>,
    pub datatype: DataTypeFlag,
    pub cas: u64,
    pub flags: u32,
}

#[derive(Debug)]
pub struct GetAndTouchResult {
    pub value: Vec<u8>,
    pub datatype: DataTypeFlag,
    pub cas: u64,
    pub flags: u32,
}

#[derive(Debug)]
pub struct UnlockResult {}

#[derive(Debug)]
pub struct TouchResult {
    pub cas: u64,
}

#[derive(Debug)]
pub struct AddResult {
    pub cas: u64,
    pub mutation_token: Option<MutationToken>,
}

#[derive(Debug)]
pub struct ReplaceResult {
    pub cas: u64,
    pub mutation_token: Option<MutationToken>,
}

#[derive(Debug)]
pub struct AppendResult {
    pub cas: u64,
    pub mutation_token: Option<MutationToken>,
}

#[derive(Debug)]
pub struct PrependResult {
    pub cas: u64,
    pub mutation_token: Option<MutationToken>,
}

#[derive(Debug)]
pub struct IncrementResult {
    pub cas: u64,
    pub value: u64,
    pub mutation_token: Option<MutationToken>,
}

#[derive(Debug)]
pub struct DecrementResult {
    pub cas: u64,
    pub value: u64,
    pub mutation_token: Option<MutationToken>,
}

#[derive(Debug)]
pub struct LookupInResult {
    pub value: Vec<SubDocResult>,
    pub cas: u64,
    pub doc_is_deleted: bool,
}

#[derive(Debug)]
pub struct MutateInResult {
    pub value: Vec<SubDocResult>,
    pub cas: u64,
    pub mutation_token: Option<MutationToken>,
}

} // verus!
