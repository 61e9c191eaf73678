//! What callers ask of the key-value operations.
use vstd::prelude::*;
use crate::memdx::{DataTypeFlag, LookupInOp, MutateInOp};

verus! {

/// The end user that an operation runs on behalf of.
#[derive(Debug)]
pub struct OnBehalfOfInfo {
    pub username: String,
}

/// Stores a document, whether there was one or not.
#[derive(Debug)]
pub struct UpsertOptions<'a> {
    pub key: &'a [u8],
    pub scope_name: &'a str,
    pub collection_name: &'a str,
    pub value: &'a [u8],
    pub flags: u32,
    pub datatype: DataTypeFlag,
    pub expiry: Option<u32>,
    pub preserve_expiry: Option<bool>,
    pub cas: Option<u64>,
    pub durability_level: Option<u8>,
    pub on_behalf_of: Option<&'a OnBehalfOfInfo>,
}

/// Reads a document.
#[derive(Debug)]
pub struct GetOptions<'a> {
    pub key: &'a [u8],
    pub scope_name: &'a str,
    pub collection_name: &'a str,
    pub on_behalf_of: Option<&'a OnBehalfOfInfo>,
}

/// Reads what is known about a document besides its value.
#[derive(Debug)]
pub struct GetMetaOptions<'a> {
    pub key: &'a [u8],
    pub scope_name: &'a str,
    pub collection_name: &'a str,
    pub on_behalf_of: Option<&'a OnBehalfOfInfo>,
}

/// Removes a document.
#[derive(Debug)]
pub struct DeleteOptions<'a> {
    pub key: &'a [u8],
    pub scope_name: &'a str,
    pub collection_name: &'a str,
    pub cas: Option<u64>,
    pub durability_level: Option<u8>,
    pub on_behalf_of: Option<&'a OnBehalfOfInfo>,
}

/// Reads a document and locks it.
#[derive(Debug)]
pub struct GetAndLockOptions<'a> {
    pub key: &'a [u8],
    pub scope_name: &'a str,
    pub collection_name: &'a str,
    pub lock_time: u32,
    pub on_behalf_of: Option<&'a OnBehalfOfInfo>,
}

/// Reads a document and sets its expiry.
#[derive(Debug)]
pub struct GetAndTouchOptions<'a> {
    pub key: &'a [u8],
    pub scope_name: &'a str,
    pub collection_name: &'a str,
    pub expiry: u32,
    pub on_behalf_of: Option<&'a OnBehalfOfInfo>,
}

/// Unlocks a document.
#[derive(Debug)]
pub struct UnlockOptions<'a> {
    pub key: &'a [u8],
    pub scope_name: &'a str,
    pub collection_name: &'a str,
    pub cas: u64,
    pub on_behalf_of: Option<&'a OnBehalfOfInfo>,
}

/// Sets a document's expiry.
#[derive(Debug)]
pub struct TouchOptions<'a> {
    pub key: &'a [u8],
    pub scope_name: &'a str,
    pub collection_name: &'a str,
    pub expiry: u32,
    pub on_behalf_of: Option<&'a OnBehalfOfInfo>,
}

/// Stores a document where there is none.
#[derive(Debug)]
pub struct AddOptions<'a> {
    pub key: &'a [u8],
    pub scope_name: &'a str,
    pub collection_name: &'a str,
    pub value: &'a [u8],
    pub flags: u32,
    pub datatype: DataTypeFlag,
    pub expiry: Option<u32>,
    pub durability_level: Option<u8>,
    pub on_behalf_of: Option<&'a OnBehalfOfInfo>,
}

/// Stores a document where there is one.
#[derive(Debug)]
pub struct ReplaceOptions<'a> {
    pub key: &'a [u8],
    pub scope_name: &'a str,
    pub collection_name: &'a str,
    pub value: &'a [u8],
    pub flags: u32,
    pub datatype: DataTypeFlag,
    pub expiry: Option<u32>,
    pub preserve_expiry: Option<bool>,
    pub cas: Option<u64>,
    pub durability_level: Option<u8>,
    pub on_behalf_of: Option<&'a OnBehalfOfInfo>,
}

/// Puts bytes behind a document's value.
#[derive(Debug)]
pub struct AppendOptions<'a> {
    pub key: &'a [u8],
    pub scope_name: &'a str,
    pub collection_name: &'a str,
    pub value: &'a [u8],
    pub cas: Option<u64>,
    pub durability_level: Option<u8>,
    pub on_behalf_of: Option<&'a OnBehalfOfInfo>,
}

/// Puts bytes in front of a document's value.
#[derive(Debug)]
pub struct PrependOptions<'a> {
    pub key: &'a [u8],
    pub scope_name: &'a str,
    pub collection_name: &'a str,
    pub value: &'a [u8],
    pub cas: Option<u64>,
    pub durability_level: Option<u8>,
    pub on_behalf_of: Option<&'a OnBehalfOfInfo>,
}

/// Adds to a counter.
#[derive(Debug)]
pub struct IncrementOptions<'a> {
    pub key: &'a [u8],
    pub scope_name: &'a str,
    pub collection_name: &'a str,
    pub initial: Option<u64>,
    pub delta: Option<u64>,
    pub expiry: Option<u32>,
    pub durability_level: Option<u8>,
    pub on_behalf_of: Option<&'a OnBehalfOfInfo>,
}

/// Takes from a counter.
#[derive(Debug)]
pub struct DecrementOptions<'a> {
    pub key: &'a [u8],
    pub scope_name: &'a str,
    pub collection_name: &'a str,
    pub initial: Option<u64>,
    pub delta: Option<u64>,
    pub expiry: Option<u32>,
    pub durability_level: Option<u8>,
    pub on_behalf_of: Option<&'a OnBehalfOfInfo>,
}

/// Reads parts of a document.
#[derive(Debug)]
pub struct LookupInOptions<'a> {
    pub key: &'a [u8],
    pub scope_name: &'a str,
    pub collection_name: &'a str,
    pub flags: Option<u8>,
    pub ops: &'a [LookupInOp<'a>],
    pub on_behalf_of: Option<&'a OnBehalfOfInfo>,
}

/// Changes parts of a document.
#[derive(Debug)]
pub struct MutateInOptions<'a> {
    pub key: &'a [u8],
    pub scope_name: &'a str,
    pub collection_name: &'a str,
    pub flags: Option<u8>,
    pub ops: &'a [MutateInOp<'a>],
    pub expiry: Option<u32>,
    pub preserve_expiry: Option<bool>,
    pub cas: Option<u64>,
    pub durability_level: Option<u8>,
    pub on_behalf_of: Option<&'a OnBehalfOfInfo>,
}

#[derive(Debug)]
pub struct GetCollectionIdOptions<'a> {
    pub scope_name: &'a str,
    pub collection_name: &'a str,
}

#[derive(Debug)]
pub struct CollectionStatsOptions<'a> {
    pub scope_name: &'a str,
    pub collection_name: &'a str,
    pub on_behalf_of: Option<&'a OnBehalfOfInfo>,
}

/// Opens a scan of one vbucket. The range, the sampling and the snapshot are
/// carried through as they are.
#[derive(Debug)]
pub struct RangeScanCreateOptions<'a, R, S, N> {
    pub vbucket_id: u16,
    pub scope_name: &'a str,
    pub collection_name: &'a str,
    pub keys_only: bool,
    pub range: R,
    pub sampling: S,
    pub snapshot: N,
    pub on_behalf_of: Option<&'a OnBehalfOfInfo>,
}

} // verus!
