//! The key-value operations: what each asks of the server, what it makes of the
//! answer, and what its failure carries.
//!
//! Resolving the collection, picking the node, compressing and sending are the
//! program's. It says where an attempt is dispatched to and hands in what came
//! of it.
use std::time::Duration;
use vstd::prelude::*;
use crate::crudoptions::{
    AddOptions, AppendOptions, CollectionStatsOptions, DecrementOptions, DeleteOptions,
    GetAndLockOptions, GetAndTouchOptions, GetCollectionIdOptions, GetMetaOptions, GetOptions,
    IncrementOptions, LookupInOptions, MutateInOptions, OnBehalfOfInfo, PrependOptions,
    RangeScanCreateOptions, ReplaceOptions, TouchOptions, UnlockOptions, UpsertOptions,
};
use crate::error::{Error, ErrorKind, MemdxError};
use crate::indexerx::status::{lossy, lossy_text};
use crate::kvrequest::{
    AddRequest, AddResponse, AppendRequest, AppendResponse, DecrementRequest, DecrementResponse,
    DeleteRequest, DeleteResponse, GetAllVbSeqnosRequest, GetAndLockRequest, GetAndLockResponse,
    GetAndTouchRequest, GetAndTouchResponse, GetCollectionIdRequest, GetCollectionIdResponse,
    GetMetaRequest, GetMetaResponse, GetRequest, GetResponse, IncrementRequest,
    IncrementResponse, LookupInRequest, LookupInResponse, MutateInRequest, MutateInResponse,
    PrependRequest, PrependResponse, RangeScanConfig, RangeScanCreateRequest, ReplaceRequest,
    ReplaceResponse, RequestedVbState, SetRequest, SetResponse, StatsRequest, SubDocAnswer,
    TouchRequest, TouchResponse, UnlockRequest, UnlockResponse, VbSeqno, WireToken,
};
use crate::kvresult::{
    AddResult, AppendResult, CollectionStats, DecrementResult, DeleteResult, GetAndLockResult,
    GetAndTouchResult, GetCollectionIdResult, GetMetaResult, GetResult, IncrementResult,
    LookupInResult, MutateInResult, PrependResult, ReplaceResult, StatsEntry, StatsResult,
    SubDocResult, TouchResult, UnlockResult, UpsertResult,
};
use crate::memdx;
use crate::memdx::{DataTypeFlag, ServerErrorKind, Status};
use crate::mutationtoken::MutationToken;
use crate::retry::RetryRequest;
use crate::text::{
    chars_of, owned, parse_unsigned, parsed_unsigned, same_chars,
};

verus! {
/// The operations on one document.
#[derive(Debug, Clone, Copy, PartialEq, Eq, Structural)]
pub enum CrudOp {
    Upsert,
    Get,
    GetMeta,
    Delete,
    GetAndLock,
    GetAndTouch,
    Unlock,
    Touch,
    Add,
    Replace,
    Append,
    Prepend,
    Increment,
    Decrement,
    LookupIn,
    MutateIn,
}

impl CrudOp {
    /// What the operation is called in retries.
    pub open spec fn name(self) -> Seq<char> {
        match self {
            CrudOp::Upsert => "upsert"@,
            CrudOp::Get => "get"@,
            CrudOp::GetMeta => "get_meta"@,
            CrudOp::Delete => "delete"@,
            CrudOp::GetAndLock => "get_and_lock"@,
            CrudOp::GetAndTouch => "get_and_touch"@,
            CrudOp::Unlock => "unlock"@,
            CrudOp::Touch => "touch"@,
            CrudOp::Add => "add"@,
            CrudOp::Replace => "replace"@,
            CrudOp::Append => "append"@,
            CrudOp::Prepend => "prepend"@,
            CrudOp::Increment => "increment"@,
            CrudOp::Decrement => "decrement"@,
            CrudOp::LookupIn => "lookup_in"@,
            CrudOp::MutateIn => "mutate_in"@,
        }
    }

    /// Whether repeating the operation changes nothing: the reads are.
    pub open spec fn is_idempotent(self) -> bool {
        self == CrudOp::Get || self == CrudOp::GetMeta || self == CrudOp::LookupIn
    }

    /// What is known of an operation before its first attempt.
    pub fn retry_request(self) -> (r: RetryRequest)
        ensures
            r.operation@ == self.name(),
            r.is_idempotent == self.is_idempotent(),
            r.retry_attempts == 0,
    {
        match self {
            CrudOp::Upsert => RetryRequest::new("upsert", false),
            CrudOp::Get => RetryRequest::new("get", true),
            CrudOp::GetMeta => RetryRequest::new("get_meta", true),
            CrudOp::Delete => RetryRequest::new("delete", false),
            CrudOp::GetAndLock => RetryRequest::new("get_and_lock", false),
            CrudOp::GetAndTouch => RetryRequest::new("get_and_touch", false),
            CrudOp::Unlock => RetryRequest::new("unlock", false),
            CrudOp::Touch => RetryRequest::new("touch", false),
            CrudOp::Add => RetryRequest::new("add", false),
            CrudOp::Replace => RetryRequest::new("replace", false),
            CrudOp::Append => RetryRequest::new("append", false),
            CrudOp::Prepend => RetryRequest::new("prepend", false),
            CrudOp::Increment => RetryRequest::new("increment", false),
            CrudOp::Decrement => RetryRequest::new("decrement", false),
            CrudOp::LookupIn => RetryRequest::new("lookup_in", true),
            CrudOp::MutateIn => RetryRequest::new("mutate_in", false),
        }
    }

    /// What the value is compressed as. The two that extend a value do not know
    /// what it is.
    pub fn compressed_as(self, datatype: DataTypeFlag) -> (r: DataTypeFlag)
        ensures
            r == (if self == CrudOp::Append || self == CrudOp::Prepend {
                DataTypeFlag::Raw
            } else {
                datatype
            }),
    {
        if self == CrudOp::Append || self == CrudOp::Prepend {
            DataTypeFlag::Raw
        } else {
            datatype
        }
    }
}

/// Where an attempt is dispatched to.
#[derive(Debug)]
pub struct Dispatch {
    pub collection_id: u32,
    pub vbucket_id: u16,
    /// The bucket that the connection is on.
    pub bucket_name: Option<String>,
}

impl Dispatch {
    /// The bucket's name, empty where there is none.
    pub open spec fn bucket(&self) -> Seq<char> {
        match self.bucket_name {
            Some(name) => name@,
            None => Seq::empty(),
        }
    }

    fn bucket_text(&self) -> (r: String)
        ensures
            r@ == self.bucket(),
    {
        match &self.bucket_name {
            Some(name) => name.clone(),
            None => {
                proof {
                    reveal_strlit("");
                    assert(""@ =~= Seq::<char>::empty());
                }
                owned("")
            },
        }
    }
}

/// The end user's name, where there is one.
pub open spec fn user_of(on_behalf_of: Option<&OnBehalfOfInfo>) -> Option<Seq<char>> {
    match on_behalf_of {
        Some(o) => Some(o.username@),
        None => None,
    }
}

pub open spec fn name_of(user: Option<&str>) -> Option<Seq<char>> {
    match user {
        Some(name) => Some(name@),
        None => None,
    }
}

fn username<'a>(on_behalf_of: Option<&'a OnBehalfOfInfo>) -> (r: Option<&'a str>)
    ensures
        name_of(r) == user_of(on_behalf_of),
{
    match on_behalf_of {
        Some(o) => Some(o.username.as_str()),
        None => None,
    }
}

/// The token of a mutation that was dispatched to `vbucket_id`.
pub open spec fn is_token_of(r: Option<MutationToken>, vbucket_id: u16, t: Option<WireToken>) -> bool {
    match t {
        Some(t) => r matches Some(token) && token.spec_vbid() == vbucket_id
            && token.spec_vbuuid() == t.vbuuid && token.spec_seqno() == t.seqno,
        None => r is None,
    }
}

fn token_of(vbucket_id: u16, t: Option<WireToken>) -> (r: Option<MutationToken>)
    ensures
        is_token_of(r, vbucket_id, t),
{
    match t {
        Some(t) => Some(MutationToken::new(vbucket_id, t.vbuuid, t.seqno)),
        None => None,
    }
}

/// Whether `r` is `e` with the document and its keyspace named, and nothing
/// else changed.
pub open spec fn is_in_context(
    r: MemdxError,
    e: MemdxError,
    key: Seq<u8>,
    bucket: Seq<char>,
    scope: Seq<char>,
    collection: Seq<char>,
) -> bool {
    &&& r.spec_source() == e.spec_source()
    &&& r.spec_dispatched_to() == e.spec_dispatched_to()
    &&& r.spec_dispatched_from() == e.spec_dispatched_from()
    &&& r.spec_doc_id() matches Some(id) && id@ == key
    &&& is_in_keyspace(r, bucket, scope, collection)
}

/// Whether an error names this keyspace.
pub open spec fn is_in_keyspace(
    r: MemdxError,
    bucket: Seq<char>,
    scope: Seq<char>,
    collection: Seq<char>,
) -> bool {
    &&& r.spec_bucket_name() matches Some(b) && b@ == bucket
    &&& r.spec_scope_name() matches Some(s) && s@ == scope
    &&& r.spec_collection_name() matches Some(c) && c@ == collection
}

/// Names the document and its keyspace in an operation's failure.
pub fn update_memdx_err(
    bucket_name: String,
    e: MemdxError,
    key: Vec<u8>,
    scope_name: &str,
    collection_name: &str,
) -> (r: MemdxError)
    ensures
        is_in_context(r, e, key@, bucket_name@, scope_name@, collection_name@),
{
    e.set_doc_id(key).set_bucket_name(bucket_name).set_collection_name(
        owned(collection_name),
    ).set_scope_name(owned(scope_name))
}

/// Whether an operation on a document failed with `e`, in its context.
pub open spec fn is_failure(
    r: Error,
    e: MemdxError,
    key: Seq<u8>,
    at: Dispatch,
    scope: Seq<char>,
    collection: Seq<char>,
) -> bool {
    &&& r.spec_kind() matches ErrorKind::Memdx(m)
    &&& is_in_context(m, e, key, at.bucket(), scope, collection)
    &&& r.spec_retry_info() is None
}

fn failure(e: MemdxError, key: &[u8], at: &Dispatch, scope: &str, collection: &str) -> (r: Error)
    ensures
        is_failure(r, e, key@, *at, scope@, collection@),
{
    Error::new_contextual_memdx_error(
        update_memdx_err(
            at.bucket_text(),
            e,
            vstd::slice::slice_to_vec(key),
            scope,
            collection,
        ),
    )
}

/// Whether the parts of a document are handed on as they were answered, the
/// failed ones in the document's context.
pub open spec fn are_parts_of(
    r: Seq<SubDocResult>,
    answers: Seq<SubDocAnswer>,
    key: Seq<u8>,
    at: Dispatch,
    scope: Seq<char>,
    collection: Seq<char>,
) -> bool {
    &&& r.len() == answers.len()
    &&& forall|i: int|
        0 <= i < r.len() ==> is_part_of(#[trigger] r[i], answers[i], key, at, scope, collection)
}

pub open spec fn is_part_of(
    r: SubDocResult,
    answer: SubDocAnswer,
    key: Seq<u8>,
    at: Dispatch,
    scope: Seq<char>,
    collection: Seq<char>,
) -> bool {
    &&& r.value == answer.value
    &&& match answer.err {
        Some(e) => r.err matches Some(m) && m.spec_source() == e && m.spec_dispatched_to() is None
            && m.spec_dispatched_from() is None && (m.spec_doc_id() matches Some(id) && id@ == key)
            && is_in_keyspace(m, at.bucket(), scope, collection),
        None => r.err is None,
    }
}

fn parts_of(
    answers: Vec<SubDocAnswer>,
    key: &[u8],
    at: &Dispatch,
    scope: &str,
    collection: &str,
) -> (r: Vec<SubDocResult>)
    ensures
        are_parts_of(r@, answers@, key@, *at, scope@, collection@),
{
    let ghost all = answers@;
    let mut r: Vec<SubDocResult> = Vec::new();
    for answer in it: answers
        invariant
            it.seq() == all,
            r@.len() == it.index(),
            forall|i: int|
                0 <= i < r@.len() ==> is_part_of(
                    #[trigger] r@[i],
                    all[i],
                    key@,
                    *at,
                    scope@,
                    collection@,
                ),
    {
        let err: Option<MemdxError> = match answer.err {
            Some(e) => Some(
                update_memdx_err(
                    at.bucket_text(),
                    MemdxError::new(e),
                    vstd::slice::slice_to_vec(key),
                    scope,
                    collection,
                ),
            ),
            None => None,
        };
        r.push(SubDocResult { err, value: answer.value });
    }
    r
}

/// The operations on documents.
pub struct CrudComponent {}

impl CrudComponent {
    /// Stores a document, whether there was one or not.
    /// `compressed` is what the compressor made of the value; what it failed with
    /// ends the attempt.
    pub fn upsert<'a>(
        opts: &UpsertOptions<'a>,
        at: &Dispatch,
        compressed: Result<(Vec<u8>, DataTypeFlag), Error>,
    ) -> (r: Result<SetRequest<'a>, Error>)
        ensures
            match compressed {
                Ok((value, datatype)) => r matches Ok(request) && {
                    &&& request.collection_id == at.collection_id
                    &&& request.key == opts.key
                    &&& request.vbucket_id == at.vbucket_id
                    &&& request.flags == opts.flags
                    &&& request.value == value
                    &&& request.datatype == datatype
                    &&& request.expiry == opts.expiry
                    &&& request.preserve_expiry == opts.preserve_expiry
                    &&& request.cas == opts.cas
                    &&& name_of(request.on_behalf_of) == user_of(opts.on_behalf_of)
                    &&& request.durability_level == opts.durability_level
                    &&& request.durability_level_timeout is None
                },
                Err(e) => r == Err::<SetRequest<'a>, Error>(e),
            },
    {
        let (value, datatype): (Vec<u8>, DataTypeFlag) = match compressed {
            Ok(result) => result,
            Err(e) => {
                return Err(e);
            },
        };
        Ok(
            SetRequest {
                collection_id: at.collection_id,
                key: opts.key,
                vbucket_id: at.vbucket_id,
                flags: opts.flags,
                value,
                datatype,
                expiry: opts.expiry,
                preserve_expiry: opts.preserve_expiry,
                cas: opts.cas,
                on_behalf_of: username(opts.on_behalf_of),
                durability_level: opts.durability_level,
                durability_level_timeout: None,
            },
        )
    }

    /// What an attempt of `upsert` came to.
    pub fn upserted(
        opts: &UpsertOptions<'_>,
        at: &Dispatch,
        outcome: Result<SetResponse, MemdxError>,
    ) -> (r: Result<UpsertResult, Error>)
        ensures
            match outcome {
                Ok(resp) => r matches Ok(result) && {
                    &&& result.cas == resp.cas
                    &&& is_token_of(result.mutation_token, at.vbucket_id, resp.mutation_token)
                },
                Err(e) => r matches Err(failed) && is_failure(
                    failed,
                    e,
                    opts.key@,
                    *at,
                    opts.scope_name@,
                    opts.collection_name@,
                ),
            },
    {
        match outcome {
            Ok(resp) => Ok(
                UpsertResult {
                    cas: resp.cas,
                    mutation_token: token_of(at.vbucket_id, resp.mutation_token),
                },
            ),
            Err(e) => Err(failure(e, opts.key, at, opts.scope_name, opts.collection_name)),
        }
    }

    /// Reads a document.
    pub fn get<'a>(opts: &GetOptions<'a>, at: &Dispatch) -> (r: GetRequest<'a>)
        ensures
            r.collection_id == at.collection_id,
            r.key == opts.key,
            r.vbucket_id == at.vbucket_id,
            name_of(r.on_behalf_of) == user_of(opts.on_behalf_of),
    {
        GetRequest {
            collection_id: at.collection_id,
            key: opts.key,
            vbucket_id: at.vbucket_id,
            on_behalf_of: username(opts.on_behalf_of),
        }
    }

    /// What an attempt of `get` came to.
    pub fn got(
        opts: &GetOptions<'_>,
        at: &Dispatch,
        outcome: Result<GetResponse, MemdxError>,
    ) -> (r: Result<GetResult, Error>)
        ensures
            match outcome {
                Ok(resp) => r matches Ok(result) && {
                    &&& result.value == resp.value
                    &&& result.datatype == resp.datatype
                    &&& result.cas == resp.cas
                    &&& result.flags == resp.flags
                },
                Err(e) => r matches Err(failed) && is_failure(
                    failed,
                    e,
                    opts.key@,
                    *at,
                    opts.scope_name@,
                    opts.collection_name@,
                ),
            },
    {
        match outcome {
            Ok(resp) => Ok(
                GetResult {
                    value: resp.value,
                    datatype: resp.datatype,
                    cas: resp.cas,
                    flags: resp.flags,
                },
            ),
            Err(e) => Err(failure(e, opts.key, at, opts.scope_name, opts.collection_name)),
        }
    }

    /// Reads what is known about a document besides its value.
    pub fn get_meta<'a>(opts: &GetMetaOptions<'a>, at: &Dispatch) -> (r: GetMetaRequest<'a>)
        ensures
            r.collection_id == at.collection_id,
            r.key == opts.key,
            r.vbucket_id == at.vbucket_id,
            name_of(r.on_behalf_of) == user_of(opts.on_behalf_of),
    {
        GetMetaRequest {
            collection_id: at.collection_id,
            key: opts.key,
            vbucket_id: at.vbucket_id,
            on_behalf_of: username(opts.on_behalf_of),
        }
    }

    /// What an attempt of `get_meta` came to.
    pub fn got_meta(
        opts: &GetMetaOptions<'_>,
        at: &Dispatch,
        outcome: Result<GetMetaResponse, MemdxError>,
    ) -> (r: Result<GetMetaResult, Error>)
        ensures
            match outcome {
                Ok(resp) => r matches Ok(result) && {
                    &&& result.value == resp.value
                    &&& result.datatype == resp.datatype
                    &&& result.server_duration == resp.server_duration
                    &&& result.expiry == resp.expiry
                    &&& result.seq_no == resp.seq_no
                    &&& result.cas == resp.cas
                    &&& result.flags == resp.flags
                    &&& result.deleted == resp.deleted
                },
                Err(e) => r matches Err(failed) && is_failure(
                    failed,
                    e,
                    opts.key@,
                    *at,
                    opts.scope_name@,
                    opts.collection_name@,
                ),
            },
    {
        match outcome {
            Ok(resp) => Ok(
                GetMetaResult {
                    value: resp.value,
                    datatype: resp.datatype,
                    server_duration: resp.server_duration,
                    expiry: resp.expiry,
                    seq_no: resp.seq_no,
                    cas: resp.cas,
                    flags: resp.flags,
                    deleted: resp.deleted,
                },
            ),
            Err(e) => Err(failure(e, opts.key, at, opts.scope_name, opts.collection_name)),
        }
    }

    /// Removes a document.
    pub fn delete<'a>(opts: &DeleteOptions<'a>, at: &Dispatch) -> (r: DeleteRequest<'a>)
        ensures
            r.collection_id == at.collection_id,
            r.key == opts.key,
            r.vbucket_id == at.vbucket_id,
            r.cas == opts.cas,
            name_of(r.on_behalf_of) == user_of(opts.on_behalf_of),
            r.durability_level == opts.durability_level,
            r.durability_level_timeout is None,
    {
        DeleteRequest {
            collection_id: at.collection_id,
            key: opts.key,
            vbucket_id: at.vbucket_id,
            cas: opts.cas,
            on_behalf_of: username(opts.on_behalf_of),
            durability_level: opts.durability_level,
            durability_level_timeout: None,
        }
    }

    /// What an attempt of `delete` came to.
    pub fn deleted(
        opts: &DeleteOptions<'_>,
        at: &Dispatch,
        outcome: Result<DeleteResponse, MemdxError>,
    ) -> (r: Result<DeleteResult, Error>)
        ensures
            match outcome {
                Ok(resp) => r matches Ok(result) && {
                    &&& result.cas == resp.cas
                    &&& is_token_of(result.mutation_token, at.vbucket_id, resp.mutation_token)
                },
                Err(e) => r matches Err(failed) && is_failure(
                    failed,
                    e,
                    opts.key@,
                    *at,
                    opts.scope_name@,
                    opts.collection_name@,
                ),
            },
    {
        match outcome {
            Ok(resp) => Ok(
                DeleteResult {
                    cas: resp.cas,
                    mutation_token: token_of(at.vbucket_id, resp.mutation_token),
                },
            ),
            Err(e) => Err(failure(e, opts.key, at, opts.scope_name, opts.collection_name)),
        }
    }

    /// Reads a document and locks it.
    pub fn get_and_lock<'a>(opts: &GetAndLockOptions<'a>, at: &Dispatch) -> (r: GetAndLockRequest<'a>)
        ensures
            r.collection_id == at.collection_id,
            r.key == opts.key,
            r.vbucket_id == at.vbucket_id,
            r.lock_time == opts.lock_time,
            name_of(r.on_behalf_of) == user_of(opts.on_behalf_of),
    {
        GetAndLockRequest {
            collection_id: at.collection_id,
            key: opts.key,
            vbucket_id: at.vbucket_id,
            lock_time: opts.lock_time,
            on_behalf_of: username(opts.on_behalf_of),
        }
    }

    /// What an attempt of `get_and_lock` came to.
    pub fn got_and_locked(
        opts: &GetAndLockOptions<'_>,
        at: &Dispatch,
        outcome: Result<GetAndLockResponse, MemdxError>,
    ) -> (r: Result<GetAndLockResult, Error>)
        ensures
            match outcome {
                Ok(resp) => r matches Ok(result) && {
                    &&& result.value == resp.value
                    &&& result.datatype == resp.datatype
                    &&& result.cas == resp.cas
                    &&& result.flags == resp.flags
                },
                Err(e) => r matches Err(failed) && is_failure(
                    failed,
                    e,
                    opts.key@,
                    *at,
                    opts.scope_name@,
                    opts.collection_name@,
                ),
            },
    {
        match outcome {
            Ok(resp) => Ok(
                GetAndLockResult {
                    value: resp.value,
                    datatype: resp.datatype,
                    cas: resp.cas,
                    flags: resp.flags,
                },
            ),
            Err(e) => Err(failure(e, opts.key, at, opts.scope_name, opts.collection_name)),
        }
    }

    /// Reads a document and sets its expiry.
    pub fn get_and_touch<'a>(opts: &GetAndTouchOptions<'a>, at: &Dispatch) -> (r: GetAndTouchRequest<'a>)
        ensures
            r.collection_id == at.collection_id,
            r.key == opts.key,
            r.vbucket_id == at.vbucket_id,
            r.expiry == opts.expiry,
            name_of(r.on_behalf_of) == user_of(opts.on_behalf_of),
    {
        GetAndTouchRequest {
            collection_id: at.collection_id,
            key: opts.key,
            vbucket_id: at.vbucket_id,
            expiry: opts.expiry,
            on_behalf_of: username(opts.on_behalf_of),
        }
    }

    /// What an attempt of `get_and_touch` came to.
    pub fn got_and_touched(
        opts: &GetAndTouchOptions<'_>,
        at: &Dispatch,
        outcome: Result<GetAndTouchResponse, MemdxError>,
    ) -> (r: Result<GetAndTouchResult, Error>)
        ensures
            match outcome {
                Ok(resp) => r matches Ok(result) && {
                    &&& result.value == resp.value
                    &&& result.datatype == resp.datatype
                    &&& result.cas == resp.cas
                    &&& result.flags == resp.flags
                },
                Err(e) => r matches Err(failed) && is_failure(
                    failed,
                    e,
                    opts.key@,
                    *at,
                    opts.scope_name@,
                    opts.collection_name@,
                ),
            },
    {
        match outcome {
            Ok(resp) => Ok(
                GetAndTouchResult {
                    value: resp.value,
                    datatype: resp.datatype,
                    cas: resp.cas,
                    flags: resp.flags,
                },
            ),
            Err(e) => Err(failure(e, opts.key, at, opts.scope_name, opts.collection_name)),
        }
    }

    /// Unlocks a document.
    pub fn unlock<'a>(opts: &UnlockOptions<'a>, at: &Dispatch) -> (r: UnlockRequest<'a>)
        ensures
            r.collection_id == at.collection_id,
            r.key == opts.key,
            r.vbucket_id == at.vbucket_id,
            r.cas == opts.cas,
            name_of(r.on_behalf_of) == user_of(opts.on_behalf_of),
    {
        UnlockRequest {
            collection_id: at.collection_id,
            key: opts.key,
            vbucket_id: at.vbucket_id,
            cas: opts.cas,
            on_behalf_of: username(opts.on_behalf_of),
        }
    }

    /// What an attempt of `unlock` came to.
    pub fn unlocked(
        opts: &UnlockOptions<'_>,
        at: &Dispatch,
        outcome: Result<UnlockResponse, MemdxError>,
    ) -> (r: Result<UnlockResult, Error>)
        ensures
            match outcome {
                Ok(_) => r is Ok,
                Err(e) => r matches Err(failed) && is_failure(
                    failed,
                    e,
                    opts.key@,
                    *at,
                    opts.scope_name@,
                    opts.collection_name@,
                ),
            },
    {
        match outcome {
            Ok(_) => Ok(UnlockResult {  }),
            Err(e) => Err(failure(e, opts.key, at, opts.scope_name, opts.collection_name)),
        }
    }

    /// Sets a document's expiry.
    pub fn touch<'a>(opts: &TouchOptions<'a>, at: &Dispatch) -> (r: TouchRequest<'a>)
        ensures
            r.collection_id == at.collection_id,
            r.key == opts.key,
            r.vbucket_id == at.vbucket_id,
            r.expiry == opts.expiry,
            name_of(r.on_behalf_of) == user_of(opts.on_behalf_of),
    {
        TouchRequest {
            collection_id: at.collection_id,
            key: opts.key,
            vbucket_id: at.vbucket_id,
            expiry: opts.expiry,
            on_behalf_of: username(opts.on_behalf_of),
        }
    }

    /// What an attempt of `touch` came to.
    pub fn touched(
        opts: &TouchOptions<'_>,
        at: &Dispatch,
        outcome: Result<TouchResponse, MemdxError>,
    ) -> (r: Result<TouchResult, Error>)
        ensures
            match outcome {
                Ok(resp) => r matches Ok(result) && {
                    &&& result.cas == resp.cas
                },
                Err(e) => r matches Err(failed) && is_failure(
                    failed,
                    e,
                    opts.key@,
                    *at,
                    opts.scope_name@,
                    opts.collection_name@,
                ),
            },
    {
        match outcome {
            Ok(resp) => Ok(
                TouchResult {
                    cas: resp.cas,
                },
            ),
            Err(e) => Err(failure(e, opts.key, at, opts.scope_name, opts.collection_name)),
        }
    }

    /// Stores a document where there is none.
    /// `compressed` is what the compressor made of the value; what it failed with
    /// ends the attempt.
    pub fn add<'a>(
        opts: &AddOptions<'a>,
        at: &Dispatch,
        compressed: Result<(Vec<u8>, DataTypeFlag), Error>,
    ) -> (r: Result<AddRequest<'a>, Error>)
        ensures
            match compressed {
                Ok((value, datatype)) => r matches Ok(request) && {
                    &&& request.collection_id == at.collection_id
                    &&& request.key == opts.key
                    &&& request.vbucket_id == at.vbucket_id
                    &&& request.flags == opts.flags
                    &&& request.value == value
                    &&& request.datatype == datatype
                    &&& request.expiry == opts.expiry
                    &&& name_of(request.on_behalf_of) == user_of(opts.on_behalf_of)
                    &&& request.durability_level == opts.durability_level
                    &&& request.durability_level_timeout is None
                },
                Err(e) => r == Err::<AddRequest<'a>, Error>(e),
            },
    {
        let (value, datatype): (Vec<u8>, DataTypeFlag) = match compressed {
            Ok(result) => result,
            Err(e) => {
                return Err(e);
            },
        };
        Ok(
            AddRequest {
                collection_id: at.collection_id,
                key: opts.key,
                vbucket_id: at.vbucket_id,
                flags: opts.flags,
                value,
                datatype,
                expiry: opts.expiry,
                on_behalf_of: username(opts.on_behalf_of),
                durability_level: opts.durability_level,
                durability_level_timeout: None,
            },
        )
    }

    /// What an attempt of `add` came to.
    pub fn added(
        opts: &AddOptions<'_>,
        at: &Dispatch,
        outcome: Result<AddResponse, MemdxError>,
    ) -> (r: Result<AddResult, Error>)
        ensures
            match outcome {
                Ok(resp) => r matches Ok(result) && {
                    &&& result.cas == resp.cas
                    &&& is_token_of(result.mutation_token, at.vbucket_id, resp.mutation_token)
                },
                Err(e) => r matches Err(failed) && is_failure(
                    failed,
                    e,
                    opts.key@,
                    *at,
                    opts.scope_name@,
                    opts.collection_name@,
                ),
            },
    {
        match outcome {
            Ok(resp) => Ok(
                AddResult {
                    cas: resp.cas,
                    mutation_token: token_of(at.vbucket_id, resp.mutation_token),
                },
            ),
            Err(e) => Err(failure(e, opts.key, at, opts.scope_name, opts.collection_name)),
        }
    }

    /// Stores a document where there is one.
    /// `compressed` is what the compressor made of the value; what it failed with
    /// ends the attempt.
    pub fn replace<'a>(
        opts: &ReplaceOptions<'a>,
        at: &Dispatch,
        compressed: Result<(Vec<u8>, DataTypeFlag), Error>,
    ) -> (r: Result<ReplaceRequest<'a>, Error>)
        ensures
            match compressed {
                Ok((value, datatype)) => r matches Ok(request) && {
                    &&& request.collection_id == at.collection_id
                    &&& request.key == opts.key
                    &&& request.vbucket_id == at.vbucket_id
                    &&& request.flags == opts.flags
                    &&& request.value == value
                    &&& request.datatype == datatype
                    &&& request.expiry == opts.expiry
                    &&& request.preserve_expiry == opts.preserve_expiry
                    &&& request.cas == opts.cas
                    &&& name_of(request.on_behalf_of) == user_of(opts.on_behalf_of)
                    &&& request.durability_level == opts.durability_level
                    &&& request.durability_level_timeout is None
                },
                Err(e) => r == Err::<ReplaceRequest<'a>, Error>(e),
            },
    {
        let (value, datatype): (Vec<u8>, DataTypeFlag) = match compressed {
            Ok(result) => result,
            Err(e) => {
                return Err(e);
            },
        };
        Ok(
            ReplaceRequest {
                collection_id: at.collection_id,
                key: opts.key,
                vbucket_id: at.vbucket_id,
                flags: opts.flags,
                value,
                datatype,
                expiry: opts.expiry,
                preserve_expiry: opts.preserve_expiry,
                cas: opts.cas,
                on_behalf_of: username(opts.on_behalf_of),
                durability_level: opts.durability_level,
                durability_level_timeout: None,
            },
        )
    }

    /// What an attempt of `replace` came to.
    pub fn replaced(
        opts: &ReplaceOptions<'_>,
        at: &Dispatch,
        outcome: Result<ReplaceResponse, MemdxError>,
    ) -> (r: Result<ReplaceResult, Error>)
        ensures
            match outcome {
                Ok(resp) => r matches Ok(result) && {
                    &&& result.cas == resp.cas
                    &&& is_token_of(result.mutation_token, at.vbucket_id, resp.mutation_token)
                },
                Err(e) => r matches Err(failed) && is_failure(
                    failed,
                    e,
                    opts.key@,
                    *at,
                    opts.scope_name@,
                    opts.collection_name@,
                ),
            },
    {
        match outcome {
            Ok(resp) => Ok(
                ReplaceResult {
                    cas: resp.cas,
                    mutation_token: token_of(at.vbucket_id, resp.mutation_token),
                },
            ),
            Err(e) => Err(failure(e, opts.key, at, opts.scope_name, opts.collection_name)),
        }
    }

    /// Puts bytes behind a document's value.
    /// `compressed` is what the compressor made of the value; what it failed with
    /// ends the attempt.
    pub fn append<'a>(
        opts: &AppendOptions<'a>,
        at: &Dispatch,
        compressed: Result<(Vec<u8>, DataTypeFlag), Error>,
    ) -> (r: Result<AppendRequest<'a>, Error>)
        ensures
            match compressed {
                Ok((value, datatype)) => r matches Ok(request) && {
                    &&& request.collection_id == at.collection_id
                    &&& request.key == opts.key
                    &&& request.vbucket_id == at.vbucket_id
                    &&& request.value == value
                    &&& request.datatype == datatype
                    &&& request.cas == opts.cas
                    &&& name_of(request.on_behalf_of) == user_of(opts.on_behalf_of)
                    &&& request.durability_level == opts.durability_level
                    &&& request.durability_level_timeout is None
                },
                Err(e) => r == Err::<AppendRequest<'a>, Error>(e),
            },
    {
        let (value, datatype): (Vec<u8>, DataTypeFlag) = match compressed {
            Ok(result) => result,
            Err(e) => {
                return Err(e);
            },
        };
        Ok(
            AppendRequest {
                collection_id: at.collection_id,
                key: opts.key,
                vbucket_id: at.vbucket_id,
                value,
                datatype,
                cas: opts.cas,
                on_behalf_of: username(opts.on_behalf_of),
                durability_level: opts.durability_level,
                durability_level_timeout: None,
            },
        )
    }

    /// What an attempt of `append` came to.
    pub fn appended(
        opts: &AppendOptions<'_>,
        at: &Dispatch,
        outcome: Result<AppendResponse, MemdxError>,
    ) -> (r: Result<AppendResult, Error>)
        ensures
            match outcome {
                Ok(resp) => r matches Ok(result) && {
                    &&& result.cas == resp.cas
                    &&& is_token_of(result.mutation_token, at.vbucket_id, resp.mutation_token)
                },
                Err(e) => r matches Err(failed) && is_failure(
                    failed,
                    e,
                    opts.key@,
                    *at,
                    opts.scope_name@,
                    opts.collection_name@,
                ),
            },
    {
        match outcome {
            Ok(resp) => Ok(
                AppendResult {
                    cas: resp.cas,
                    mutation_token: token_of(at.vbucket_id, resp.mutation_token),
                },
            ),
            Err(e) => Err(failure(e, opts.key, at, opts.scope_name, opts.collection_name)),
        }
    }

    /// Puts bytes in front of a document's value.
    /// `compressed` is what the compressor made of the value; what it failed with
    /// ends the attempt.
    pub fn prepend<'a>(
        opts: &PrependOptions<'a>,
        at: &Dispatch,
        compressed: Result<(Vec<u8>, DataTypeFlag), Error>,
    ) -> (r: Result<PrependRequest<'a>, Error>)
        ensures
            match compressed {
                Ok((value, datatype)) => r matches Ok(request) && {
                    &&& request.collection_id == at.collection_id
                    &&& request.key == opts.key
                    &&& request.vbucket_id == at.vbucket_id
                    &&& request.value == value
                    &&& request.datatype == datatype
                    &&& request.cas == opts.cas
                    &&& name_of(request.on_behalf_of) == user_of(opts.on_behalf_of)
                    &&& request.durability_level == opts.durability_level
                    &&& request.durability_level_timeout is None
                },
                Err(e) => r == Err::<PrependRequest<'a>, Error>(e),
            },
    {
        let (value, datatype): (Vec<u8>, DataTypeFlag) = match compressed {
            Ok(result) => result,
            Err(e) => {
                return Err(e);
            },
        };
        Ok(
            PrependRequest {
                collection_id: at.collection_id,
                key: opts.key,
                vbucket_id: at.vbucket_id,
                value,
                datatype,
                cas: opts.cas,
                on_behalf_of: username(opts.on_behalf_of),
                durability_level: opts.durability_level,
                durability_level_timeout: None,
            },
        )
    }

    /// What an attempt of `prepend` came to.
    pub fn prepended(
        opts: &PrependOptions<'_>,
        at: &Dispatch,
        outcome: Result<PrependResponse, MemdxError>,
    ) -> (r: Result<PrependResult, Error>)
        ensures
            match outcome {
                Ok(resp) => r matches Ok(result) && {
                    &&& result.cas == resp.cas
                    &&& is_token_of(result.mutation_token, at.vbucket_id, resp.mutation_token)
                },
                Err(e) => r matches Err(failed) && is_failure(
                    failed,
                    e,
                    opts.key@,
                    *at,
                    opts.scope_name@,
                    opts.collection_name@,
                ),
            },
    {
        match outcome {
            Ok(resp) => Ok(
                PrependResult {
                    cas: resp.cas,
                    mutation_token: token_of(at.vbucket_id, resp.mutation_token),
                },
            ),
            Err(e) => Err(failure(e, opts.key, at, opts.scope_name, opts.collection_name)),
        }
    }

    /// Adds to a counter.
    pub fn increment<'a>(opts: &IncrementOptions<'a>, at: &Dispatch) -> (r: IncrementRequest<'a>)
        ensures
            r.collection_id == at.collection_id,
            r.key == opts.key,
            r.vbucket_id == at.vbucket_id,
            r.initial == opts.initial,
            r.delta == opts.delta,
            r.expiry == opts.expiry,
            name_of(r.on_behalf_of) == user_of(opts.on_behalf_of),
            r.durability_level == opts.durability_level,
            r.durability_level_timeout is None,
    {
        IncrementRequest {
            collection_id: at.collection_id,
            key: opts.key,
            vbucket_id: at.vbucket_id,
            initial: opts.initial,
            delta: opts.delta,
            expiry: opts.expiry,
            on_behalf_of: username(opts.on_behalf_of),
            durability_level: opts.durability_level,
            durability_level_timeout: None,
        }
    }

    /// What an attempt of `increment` came to.
    pub fn incremented(
        opts: &IncrementOptions<'_>,
        at: &Dispatch,
        outcome: Result<IncrementResponse, MemdxError>,
    ) -> (r: Result<IncrementResult, Error>)
        ensures
            match outcome {
                Ok(resp) => r matches Ok(result) && {
                    &&& result.cas == resp.cas
                    &&& result.value == resp.value
                    &&& is_token_of(result.mutation_token, at.vbucket_id, resp.mutation_token)
                },
                Err(e) => r matches Err(failed) && is_failure(
                    failed,
                    e,
                    opts.key@,
                    *at,
                    opts.scope_name@,
                    opts.collection_name@,
                ),
            },
    {
        match outcome {
            Ok(resp) => Ok(
                IncrementResult {
                    cas: resp.cas,
                    value: resp.value,
                    mutation_token: token_of(at.vbucket_id, resp.mutation_token),
                },
            ),
            Err(e) => Err(failure(e, opts.key, at, opts.scope_name, opts.collection_name)),
        }
    }

    /// Takes from a counter.
    pub fn decrement<'a>(opts: &DecrementOptions<'a>, at: &Dispatch) -> (r: DecrementRequest<'a>)
        ensures
            r.collection_id == at.collection_id,
            r.key == opts.key,
            r.vbucket_id == at.vbucket_id,
            r.initial == opts.initial,
            r.delta == opts.delta,
            r.expiry == opts.expiry,
            name_of(r.on_behalf_of) == user_of(opts.on_behalf_of),
            r.durability_level == opts.durability_level,
            r.durability_level_timeout is None,
    {
        DecrementRequest {
            collection_id: at.collection_id,
            key: opts.key,
            vbucket_id: at.vbucket_id,
            initial: opts.initial,
            delta: opts.delta,
            expiry: opts.expiry,
            on_behalf_of: username(opts.on_behalf_of),
            durability_level: opts.durability_level,
            durability_level_timeout: None,
        }
    }

    /// What an attempt of `decrement` came to.
    pub fn decremented(
        opts: &DecrementOptions<'_>,
        at: &Dispatch,
        outcome: Result<DecrementResponse, MemdxError>,
    ) -> (r: Result<DecrementResult, Error>)
        ensures
            match outcome {
                Ok(resp) => r matches Ok(result) && {
                    &&& result.cas == resp.cas
                    &&& result.value == resp.value
                    &&& is_token_of(result.mutation_token, at.vbucket_id, resp.mutation_token)
                },
                Err(e) => r matches Err(failed) && is_failure(
                    failed,
                    e,
                    opts.key@,
                    *at,
                    opts.scope_name@,
                    opts.collection_name@,
                ),
            },
    {
        match outcome {
            Ok(resp) => Ok(
                DecrementResult {
                    cas: resp.cas,
                    value: resp.value,
                    mutation_token: token_of(at.vbucket_id, resp.mutation_token),
                },
            ),
            Err(e) => Err(failure(e, opts.key, at, opts.scope_name, opts.collection_name)),
        }
    }

    /// Reads parts of a document.
    pub fn lookup_in<'a>(opts: &LookupInOptions<'a>, at: &Dispatch) -> (r: LookupInRequest<'a>)
        ensures
            r.collection_id == at.collection_id,
            r.key == opts.key,
            r.vbucket_id == at.vbucket_id,
            r.flags == opts.flags,
            r.ops == opts.ops,
            name_of(r.on_behalf_of) == user_of(opts.on_behalf_of),
    {
        LookupInRequest {
            collection_id: at.collection_id,
            key: opts.key,
            vbucket_id: at.vbucket_id,
            flags: opts.flags,
            ops: opts.ops,
            on_behalf_of: username(opts.on_behalf_of),
        }
    }

    /// What an attempt of `lookup_in` came to.
    pub fn looked_up_in(
        opts: &LookupInOptions<'_>,
        at: &Dispatch,
        outcome: Result<LookupInResponse, MemdxError>,
    ) -> (r: Result<LookupInResult, Error>)
        ensures
            match outcome {
                Ok(resp) => r matches Ok(result) && {
                    &&& are_parts_of(
                        result.value@,
                        resp.ops@,
                        opts.key@,
                        *at,
                        opts.scope_name@,
                        opts.collection_name@,
                    )
                    &&& result.cas == resp.cas
                    &&& result.doc_is_deleted == resp.doc_is_deleted
                },
                Err(e) => r matches Err(failed) && is_failure(
                    failed,
                    e,
                    opts.key@,
                    *at,
                    opts.scope_name@,
                    opts.collection_name@,
                ),
            },
    {
        match outcome {
            Ok(resp) => Ok(
                LookupInResult {
                    value: parts_of(
                        resp.ops,
                        opts.key,
                        at,
                        opts.scope_name,
                        opts.collection_name,
                    ),
                    cas: resp.cas,
                    doc_is_deleted: resp.doc_is_deleted,
                },
            ),
            Err(e) => Err(failure(e, opts.key, at, opts.scope_name, opts.collection_name)),
        }
    }

    /// Changes parts of a document.
    pub fn mutate_in<'a>(opts: &MutateInOptions<'a>, at: &Dispatch) -> (r: MutateInRequest<'a>)
        ensures
            r.collection_id == at.collection_id,
            r.key == opts.key,
            r.vbucket_id == at.vbucket_id,
            r.flags == opts.flags,
            r.ops == opts.ops,
            r.expiry == opts.expiry,
            r.preserve_expiry == opts.preserve_expiry,
            r.cas == opts.cas,
            name_of(r.on_behalf_of) == user_of(opts.on_behalf_of),
            r.durability_level == opts.durability_level,
            r.durability_level_timeout is None,
    {
        MutateInRequest {
            collection_id: at.collection_id,
            key: opts.key,
            vbucket_id: at.vbucket_id,
            flags: opts.flags,
            ops: opts.ops,
            expiry: opts.expiry,
            preserve_expiry: opts.preserve_expiry,
            cas: opts.cas,
            on_behalf_of: username(opts.on_behalf_of),
            durability_level: opts.durability_level,
            durability_level_timeout: None,
        }
    }

    /// What an attempt of `mutate_in` came to.
    pub fn mutated_in(
        opts: &MutateInOptions<'_>,
        at: &Dispatch,
        outcome: Result<MutateInResponse, MemdxError>,
    ) -> (r: Result<MutateInResult, Error>)
        ensures
            match outcome {
                Ok(resp) => r matches Ok(result) && {
                    &&& are_parts_of(
                        result.value@,
                        resp.ops@,
                        opts.key@,
                        *at,
                        opts.scope_name@,
                        opts.collection_name@,
                    )
                    &&& result.cas == resp.cas
                    &&& is_token_of(result.mutation_token, at.vbucket_id, resp.mutation_token)
                },
                Err(e) => r matches Err(failed) && is_failure(
                    failed,
                    e,
                    opts.key@,
                    *at,
                    opts.scope_name@,
                    opts.collection_name@,
                ),
            },
    {
        match outcome {
            Ok(resp) => Ok(
                MutateInResult {
                    value: parts_of(
                        resp.ops,
                        opts.key,
                        at,
                        opts.scope_name,
                        opts.collection_name,
                    ),
                    cas: resp.cas,
                    mutation_token: token_of(at.vbucket_id, resp.mutation_token),
                },
            ),
            Err(e) => Err(failure(e, opts.key, at, opts.scope_name, opts.collection_name)),
        }
    }

    /// Opens a scan of one vbucket.
    pub fn range_scan_create<'a, R, S, N>(
        opts: RangeScanCreateOptions<'a, R, S, N>,
        collection_id: u32,
    ) -> (r: RangeScanCreateRequest<'a, R, S, N>)
        ensures
            r.vbucket_id == opts.vbucket_id,
            r.config == (RangeScanConfig {
                collection_id,
                keys_only: opts.keys_only,
                range: opts.range,
                sampling: opts.sampling,
                snapshot: opts.snapshot,
            }),
            name_of(r.on_behalf_of) == user_of(opts.on_behalf_of),
    {
        RangeScanCreateRequest {
            vbucket_id: opts.vbucket_id,
            config: RangeScanConfig {
                collection_id,
                keys_only: opts.keys_only,
                range: opts.range,
                sampling: opts.sampling,
                snapshot: opts.snapshot,
            },
            on_behalf_of: username(opts.on_behalf_of),
        }
    }

    /// What is known of a scan before its first attempt.
    pub fn range_scan_retry() -> (r: RetryRequest)
        ensures
            r.operation@ == "range_scan_create"@,
            r.is_idempotent,
            r.retry_attempts == 0,
    {
        RetryRequest::new("range_scan_create", true)
    }

    /// Asks for a collection's id.
    pub fn get_collection_id<'a>(opts: &GetCollectionIdOptions<'a>) -> (r: GetCollectionIdRequest<
        'a,
    >)
        ensures
            r.scope_name == opts.scope_name,
            r.collection_name == opts.collection_name,
    {
        GetCollectionIdRequest {
            scope_name: opts.scope_name,
            collection_name: opts.collection_name,
        }
    }

    /// What is known of that ask before its first attempt.
    pub fn collection_id_retry() -> (r: RetryRequest)
        ensures
            r.operation@ == "get_collection_id"@,
            r.is_idempotent,
            r.retry_attempts == 0,
    {
        RetryRequest::new("get_collection_id", true)
    }

    /// What an attempt of `get_collection_id` came to.
    pub fn got_collection_id(
        bucket_name: Option<String>,
        opts: &GetCollectionIdOptions<'_>,
        outcome: Result<GetCollectionIdResponse, MemdxError>,
    ) -> (r: Result<GetCollectionIdResult, Error>)
        ensures
            match outcome {
                Ok(resp) => r matches Ok(result) && result.collection_id == resp.collection_id
                    && result.manifest_rev == resp.manifest_rev,
                Err(e) => r matches Err(failed) && is_keyspace_failure(
                    failed,
                    e,
                    bucket_name,
                    opts.scope_name@,
                    opts.collection_name@,
                ),
            },
    {
        match outcome {
            Ok(resp) => Ok(
                GetCollectionIdResult {
                    collection_id: resp.collection_id,
                    manifest_rev: resp.manifest_rev,
                },
            ),
            Err(e) => Err(
                keyspace_failure(e, bucket_name, opts.scope_name, opts.collection_name),
            ),
        }
    }

    /// What the node that a vbucket's scan was asked of failed with.
    pub fn range_scan_failed(
        e: MemdxError,
        bucket_name: Option<String>,
        scope_name: &str,
        collection_name: &str,
    ) -> (r: Error)
        ensures
            is_keyspace_failure(r, e, bucket_name, scope_name@, collection_name@),
    {
        keyspace_failure(e, bucket_name, scope_name, collection_name)
    }

    /// Asks a node for the sequence numbers of the vbuckets it is active for.
    pub fn vbucket_seqnos_active(collection_id: Option<u32>) -> (r: GetAllVbSeqnosRequest)
        ensures
            r.state == RequestedVbState::Active,
            r.collection_id == collection_id,
            r.on_behalf_of is None,
    {
        GetAllVbSeqnosRequest { state: RequestedVbState::Active, collection_id, on_behalf_of: None }
    }
}

/// Whether `r` is `e` with the keyspace named, and nothing else changed.
pub open spec fn is_keyspace_failure(
    r: Error,
    e: MemdxError,
    bucket_name: Option<String>,
    scope: Seq<char>,
    collection: Seq<char>,
) -> bool {
    &&& r.spec_kind() matches ErrorKind::Memdx(m)
    &&& m.spec_source() == e.spec_source()
    &&& m.spec_dispatched_to() == e.spec_dispatched_to()
    &&& m.spec_dispatched_from() == e.spec_dispatched_from()
    &&& m.spec_doc_id() == e.spec_doc_id()
    &&& is_in_keyspace(
        m,
        (match bucket_name {
            Some(name) => name@,
            None => ""@,
        }),
        scope,
        collection,
    )
    &&& r.spec_retry_info() is None
}

fn keyspace_failure(
    e: MemdxError,
    bucket_name: Option<String>,
    scope: &str,
    collection: &str,
) -> (r: Error)
    ensures
        is_keyspace_failure(r, e, bucket_name, scope@, collection@),
{
    let bucket: String = match bucket_name {
        Some(name) => name,
        None => owned(""),
    };
    Error::new_contextual_memdx_error(
        e.set_bucket_name(bucket).set_collection_name(owned(collection)).set_scope_name(
            owned(scope),
        ),
    )
}

/// Whether an ask for a collection's id is answered by the failure itself: the
/// server does not know the name.
pub open spec fn is_unknown_name(e: Error) -> bool {
    match e.spec_kind() {
        ErrorKind::Memdx(m) => m.spec_source().says(ServerErrorKind::UnknownCollectionName)
            || m.spec_source().says(ServerErrorKind::UnknownScopeName),
        _ => false,
    }
}

/// Whether a failed ask for a collection's id is not to be retried, whatever
/// the strategy says.
pub fn unknown_name(e: &Error) -> (r: bool)
    ensures
        r == is_unknown_name(*e),
{
    match e.is_memdx_error() {
        Some(m) => m.is_server_error_kind(ServerErrorKind::UnknownCollectionName)
            || m.is_server_error_kind(ServerErrorKind::UnknownScopeName),
        None => false,
    }
}

/// What to do after a failed ask for a collection's id.
pub enum CollectionIdStep {
    RetryAfter(Duration),
    Fail(Error),
}

/// Decides on a failed ask for a collection's id. `wait` is what the retry
/// strategy said, for an error it can be asked about. An error
/// that is given up on carries the retries there were, but a name that the
/// server does not know is handed on as it is.
pub fn collection_id_failed(e: Error, retry_info: RetryRequest, wait: Option<Duration>) -> (r:
    CollectionIdStep)
    ensures
        is_unknown_name(e) ==> r == CollectionIdStep::Fail(e),
        !is_unknown_name(e) ==> match wait {
            Some(rest) => r == CollectionIdStep::RetryAfter(rest),
            None => r matches CollectionIdStep::Fail(failed) && if retry_info.retry_attempts > 0 {
                failed.spec_kind() == e.spec_kind() && failed.spec_retry_info() == Some(retry_info)
            } else {
                failed == e
            },
        },
{
    if unknown_name(&e) {
        return CollectionIdStep::Fail(e);
    }
    match wait {
        Some(rest) => CollectionIdStep::RetryAfter(rest),
        None => {
            let mut e: Error = e;
            if retry_info.retry_attempts > 0 {
                e.set_retry_info(retry_info);
            }
            CollectionIdStep::Fail(e)
        },
    }
}

/// The sequence numbers of every node, one node's behind another's: each
/// answers only for the vbuckets it is active for.
pub fn concatenated(per_node: Vec<Vec<VbSeqno>>) -> (r: Vec<VbSeqno>)
    ensures
        r@ == per_node@.map_values(|v: Vec<VbSeqno>| v@).flatten(),
{
    let ghost all = per_node@.map_values(|v: Vec<VbSeqno>| v@);
    let mut r: Vec<VbSeqno> = Vec::new();
    assert(all.skip(0) =~= all);
    assert(r@ + all.flatten() =~= all.flatten());
    let mut i: usize = 0;
    while i < per_node.len()
        invariant
            i <= per_node.len(),
            all == per_node@.map_values(|v: Vec<VbSeqno>| v@),
            r@ + all.skip(i as int).flatten() == all.flatten(),
        decreases per_node.len() - i,
    {
        let ghost rest = all.skip(i as int);
        let ghost before = r@;
        let mut j: usize = 0;
        while j < per_node[i].len()
            invariant
                i < per_node.len(),
                j <= per_node@[i as int]@.len(),
                r@ == before + per_node@[i as int]@.take(j as int),
            decreases per_node@[i as int]@.len() - j,
        {
            r.push(per_node[i][j]);
            assert(per_node@[i as int]@.take(j + 1) =~= per_node@[i as int]@.take(j as int).push(
                per_node@[i as int]@[j as int],
            ));
            j += 1;
        }
        proof {
            assert(per_node@[i as int]@.take(j as int) =~= per_node@[i as int]@);
            assert(rest[0] == per_node@[i as int]@);
            assert(rest.drop_first() =~= all.skip(i + 1));
            assert(r@ + all.skip(i + 1).flatten() =~= before + rest.flatten());
        }
        i += 1;
    }
    proof {
        assert(all.skip(i as int) =~= Seq::<Seq<VbSeqno>>::empty());
        assert(r@ + all.skip(i as int).flatten() =~= r@);
    }
    r
}

/// A sweep of statistics over several nodes.
pub struct StatsSweep {
    result: StatsResult,
}

impl StatsSweep {
    pub closed spec fn result(&self) -> StatsResult {
        self.result
    }

    /// A sweep over this many nodes.
    pub fn new(endpoints: usize) -> (r: Self)
        ensures
            r.result() == (StatsResult { endpoints, entries: 0 }),
    {
        StatsSweep { result: StatsResult { endpoints, entries: 0 } }
    }

    /// Counts a line that `endpoint` sent, and gives it the form that callers
    /// see.
    pub fn entry(&mut self, endpoint: &str, key: Vec<u8>, value: Vec<u8>) -> (r: StatsEntry)
        requires
            old(self).result().entries < usize::MAX,
        ensures
            final(self).result() == (StatsResult {
                entries: (old(self).result().entries + 1) as usize,
                ..old(self).result()
            }),
            r.endpoint@ == endpoint@,
            r.key == key,
            r.value == value,
    {
        self.result.entries = self.result.entries + 1;
        StatsEntry { endpoint: owned(endpoint), key, value }
    }

    pub fn finish(self) -> (r: StatsResult)
        ensures
            r == self.result(),
    {
        self.result
    }
}

/// Where the last field of a statistic's key begins.
pub open spec fn last_field_start(key: Seq<char>) -> int
    decreases key.len(),
{
    if key.len() == 0 || key.last() == ':' {
        key.len() as int
    } else {
        last_field_start(key.drop_last())
    }
}

/// What stands behind the last colon of a key.
pub open spec fn last_field(key: Seq<char>) -> Seq<char> {
    key.skip(last_field_start(key))
}

/// How many colons a key has.
pub open spec fn colons(key: Seq<char>) -> nat
    decreases key.len(),
{
    if key.len() == 0 {
        0
    } else {
        colons(key.drop_last()) + if key.last() == ':' {
            1nat
        } else {
            0nat
        }
    }
}

/// The field that a key names, where it has the shape
/// `<scope-id>:<collection-id>:<field>`: two colons, and the field behind the
/// second.
pub open spec fn field_of(key: Seq<char>) -> Option<Seq<char>> {
    if colons(key) == 2 {
        Some(last_field(key))
    } else {
        None
    }
}

/// What one line adds to the measurements of a collection: two of the fields
/// are measurements. A line of any other shape adds nothing.
pub open spec fn stat_of(key: Seq<char>, value: Seq<char>) -> (int, int) {
    match (field_of(key), parsed_unsigned(value, u64::MAX as nat)) {
        (Some(field), Some(n)) => if field == "items"@ {
            (n as int, 0)
        } else if field == "data_size"@ {
            (0, n as int)
        } else {
            (0, 0)
        },
        _ => (0, 0),
    }
}

proof fn lemma_field_starts_at(key: Seq<char>, i: int)
    requires
        0 <= i <= key.len(),
        i > 0 ==> key[i - 1] == ':',
        forall|j: int| i <= j < key.len() ==> key[j] != ':',
    ensures
        last_field_start(key) == i,
    decreases key.len(),
{
    if key.len() > i {
        assert(key.last() == key[key.len() - 1]);
        lemma_field_starts_at(key.drop_last(), i);
    } else if key.len() > 0 {
        assert(key.last() == key[i - 1]);
    }
}

/// What one line adds to the count and to the size.
fn stat_in(key: &str, value: &str) -> (r: (u64, u64))
    ensures
        (r.0 as int, r.1 as int) == stat_of(key@, value@),
{
    let n: u64 = match parse_unsigned(value, u64::MAX) {
        Some(n) => n,
        None => {
            return (0, 0);
        },
    };
    let chars: Vec<char> = chars_of(key);
    let mut seen: usize = 0;
    let mut k: usize = 0;
    assert(chars@.take(0).len() == 0);
    while k < chars.len()
        invariant
            seen <= k <= chars.len(),
            seen == colons(chars@.take(k as int)),
        decreases chars.len() - k,
    {
        assert(chars@.take(k + 1).drop_last() =~= chars@.take(k as int));
        if chars[k] == ':' {
            seen += 1;
        }
        k += 1;
    }
    assert(chars@.take(k as int) =~= key@);
    if seen != 2 {
        return (0, 0);
    }
    let mut i: usize = chars.len();
    while i > 0 && chars[i - 1] != ':'
        invariant
            i <= chars.len(),
            forall|j: int| i <= j < chars@.len() ==> chars@[j] != ':',
        ensures
            i > 0 ==> chars@[i - 1] == ':',
        decreases i,
    {
        i -= 1;
    }
    let mut field: Vec<char> = Vec::new();
    let mut j: usize = i;
    while j < chars.len()
        invariant
            i <= j <= chars.len(),
            field@ == chars@.subrange(i as int, j as int),
        decreases chars.len() - j,
    {
        field.push(chars[j]);
        assert(chars@.subrange(i as int, j + 1) =~= chars@.subrange(i as int, j as int).push(
            chars@[j as int],
        ));
        j += 1;
    }
    proof {
        lemma_field_starts_at(chars@, i as int);
        assert(field@ =~= last_field(key@));
        reveal_strlit("items");
        reveal_strlit("data_size");
        assert("items"@.len() != "data_size"@.len());
    }
    let items: Vec<char> = chars_of("items");
    let data_size: Vec<char> = chars_of("data_size");
    if same_chars(field.as_slice(), items.as_slice()) {
        (n, 0)
    } else if same_chars(field.as_slice(), data_size.as_slice()) {
        (0, n)
    } else {
        (0, 0)
    }
}

/// Adds what one line says to the totals.
pub fn take_collection_stat(totals: &mut CollectionStats, key: &str, value: &str)
    requires
        old(totals).count + stat_of(key@, value@).0 <= u64::MAX,
        old(totals).size + stat_of(key@, value@).1 <= u64::MAX,
    ensures
        final(totals).count == old(totals).count + stat_of(key@, value@).0,
        final(totals).size == old(totals).size + stat_of(key@, value@).1,
{
    let (count, size): (u64, u64) = stat_in(key, value);
    totals.count = totals.count + count;
    totals.size = totals.size + size;
}

/// What several lines add up to.
pub open spec fn measured(lines: Seq<(Seq<char>, Seq<char>)>) -> (int, int)
    decreases lines.len(),
{
    if lines.len() == 0 {
        (0, 0)
    } else {
        let (count, size) = measured(lines.drop_last());
        let (more, larger) = stat_of(lines.last().0, lines.last().1);
        (count + more, size + larger)
    }
}

/// Each node reports the vbuckets it is active for, so the measurements of a
/// collection are the sums of what the nodes say, whichever is asked first.
pub proof fn measurements_add_up_across_nodes(
    one: Seq<(Seq<char>, Seq<char>)>,
    other: Seq<(Seq<char>, Seq<char>)>,
)
    ensures
        measured(one + other) == (
            measured(one).0 + measured(other).0,
            measured(one).1 + measured(other).1,
        ),
        measured(one + other) == measured(other + one),
{
    lemma_measured(one, other);
    lemma_measured(other, one);
}

proof fn lemma_measured(one: Seq<(Seq<char>, Seq<char>)>, other: Seq<(Seq<char>, Seq<char>)>)
    ensures
        measured(one + other) == (
            measured(one).0 + measured(other).0,
            measured(one).1 + measured(other).1,
        ),
    decreases other.len(),
{
    if other.len() == 0 {
        assert(one + other =~= one);
    } else {
        lemma_measured(one, other.drop_last());
        assert((one + other).drop_last() =~= one + other.drop_last());
    }
}

/// The totals, where any line was seen. No line is no figure.
pub fn finish_collection_stats(totals: CollectionStats, seen: bool) -> (r: Option<CollectionStats>)
    ensures
        r == (if seen {
            Some(totals)
        } else {
            None
        }),
{
    if seen {
        Some(totals)
    } else {
        None
    }
}

/// Whether the server said that it does not know the collection or the scope.
/// An ask for statistics gets the bare status, with no name of its own.
pub open spec fn says_unknown_keyspace(e: memdx::Error) -> bool {
    e.says(ServerErrorKind::UnknownStatus { status: Status::CollectionUnknown }) || e.says(
        ServerErrorKind::UnknownStatus { status: Status::ScopeUnknown },
    )
}

pub fn is_unknown_keyspace(e: &memdx::Error) -> (r: bool)
    ensures
        r == says_unknown_keyspace(*e),
{
    e.is_server_error_kind(ServerErrorKind::UnknownStatus { status: Status::CollectionUnknown })
        || e.is_server_error_kind(ServerErrorKind::UnknownStatus { status: Status::ScopeUnknown })
}

/// A sweep for what the nodes measure of one collection, summed.
pub struct CollectionStatsSweep {
    group_name: String,
    totals: CollectionStats,
    seen: bool,
}

/// What a node's answer leads to.
pub enum CollectionStatsStep {
    /// The next node is to be asked.
    Next,
    /// The collection does not exist, whichever node says so.
    Absent,
    Fail(Error),
}

impl CollectionStatsSweep {
    pub closed spec fn spec_group_name(&self) -> Seq<char> {
        self.group_name@
    }

    pub closed spec fn totals(&self) -> CollectionStats {
        self.totals
    }

    pub closed spec fn seen(&self) -> bool {
        self.seen
    }

    pub fn new(opts: &CollectionStatsOptions<'_>) -> (r: Self)
        ensures
            r.spec_group_name() == "collections "@ + opts.scope_name@ + "."@
                + opts.collection_name@,
            r.totals() == (CollectionStats { count: 0, size: 0 }),
            !r.seen(),
    {
        let mut group_name: String = owned("collections ");
        group_name.append(opts.scope_name);
        group_name.append(".");
        group_name.append(opts.collection_name);
        CollectionStatsSweep { group_name, totals: CollectionStats::default(), seen: false }
    }

    /// What each node is asked.
    pub fn request<'a>(&'a self, opts: &CollectionStatsOptions<'a>) -> (r: StatsRequest<'a>)
        ensures
            r.group_name@ == self.spec_group_name(),
            name_of(r.on_behalf_of) == user_of(opts.on_behalf_of),
    {
        StatsRequest {
            group_name: self.group_name.as_str(),
            on_behalf_of: username(opts.on_behalf_of),
        }
    }

    /// Takes one line. `false`, with nothing added, where a total would not fit.
    pub fn take(&mut self, key: &[u8], value: &[u8]) -> (r: bool)
        ensures
            final(self).seen(),
            final(self).spec_group_name() == old(self).spec_group_name(),
            ({
                let (count, size) = stat_of(lossy(key@), lossy(value@));
                let before = old(self).totals();
                &&& r == (before.count + count <= u64::MAX && before.size + size <= u64::MAX)
                &&& if r {
                    final(self).totals().count == before.count + count
                        && final(self).totals().size == before.size + size
                } else {
                    final(self).totals() == before
                }
            }),
    {
        self.seen = true;
        let key: String = lossy_text(key);
        let value: String = lossy_text(value);
        let (count, size): (u64, u64) = stat_in(key.as_str(), value.as_str());
        if count > u64::MAX - self.totals.count || size > u64::MAX - self.totals.size {
            return false;
        }
        let mut totals: CollectionStats = self.totals;
        take_collection_stat(&mut totals, key.as_str(), value.as_str());
        self.totals = totals;
        true
    }

    /// A node has answered to the end, or failed.
    pub fn node_done(&self, outcome: Result<(), MemdxError>) -> (r: CollectionStatsStep)
        ensures
            match outcome {
                Ok(_) => r is Next,
                Err(e) => if says_unknown_keyspace(e.spec_source()) {
                    r is Absent
                } else {
                    r matches CollectionStatsStep::Fail(failed) && failed.spec_kind()
                        == ErrorKind::Memdx(e) && failed.spec_retry_info() is None
                },
            },
    {
        match outcome {
            Ok(_) => CollectionStatsStep::Next,
            Err(e) => {
                if is_unknown_keyspace(e.memdx_error()) {
                    CollectionStatsStep::Absent
                } else {
                    CollectionStatsStep::Fail(Error::new_contextual_memdx_error(e))
                }
            },
        }
    }

    /// The totals over every node, where any of them named the collection.
    pub fn finish(self) -> (r: Option<CollectionStats>)
        ensures
            r == (if self.seen() {
                Some(self.totals())
            } else {
                None
            }),
    {
        finish_collection_stats(self.totals, self.seen)
    }
}

proof fn lemma_no_colons(s: Seq<char>)
    requires
        forall|i: int| 0 <= i < s.len() ==> #[trigger] s[i] != ':',
    ensures
        colons(s) == 0,
    decreases s.len(),
{
    if s.len() > 0 {
        assert(s[s.len() - 1] != ':');
        lemma_no_colons(s.drop_last());
    }
}

proof fn lemma_colons_add(a: Seq<char>, b: Seq<char>)
    ensures
        colons(a + b) == colons(a) + colons(b),
    decreases b.len(),
{
    if b.len() > 0 {
        assert((a + b).drop_last() =~= a + b.drop_last());
        lemma_colons_add(a, b.drop_last());
    } else {
        assert(a + b =~= a);
    }
}

/// A line whose key is a scope id, a collection id and a field counts towards
/// what its field names: `items` towards the number of documents, `data_size`
/// towards their size, and any other field towards neither. What counts is the
/// number that the line gives.
pub proof fn a_line_counts_towards_what_its_field_names(
    scope_id: Seq<char>,
    collection_id: Seq<char>,
    field: Seq<char>,
    n: u64,
)
    requires
        forall|i: int| 0 <= i < scope_id.len() ==> #[trigger] scope_id[i] != ':',
        forall|i: int| 0 <= i < collection_id.len() ==> #[trigger] collection_id[i] != ':',
        forall|i: int| 0 <= i < field.len() ==> #[trigger] field[i] != ':',
    ensures
        stat_of(
            scope_id + ":"@ + collection_id + ":"@ + field,
            crate::text::decimal(n as nat),
        ) == (
            if field == "items"@ {
                n as int
            } else {
                0
            },
            if field == "data_size"@ {
                n as int
            } else {
                0
            },
        ),
{
    let key = scope_id + ":"@ + collection_id + ":"@ + field;
    reveal_strlit(":");
    reveal_strlit("items");
    reveal_strlit("data_size");
    assert("items"@.len() != "data_size"@.len());
    crate::text::a_written_number_reads_back(n as nat);
    assert(parsed_unsigned(crate::text::decimal(n as nat), u64::MAX as nat) == Some(n as nat));
    lemma_no_colons(scope_id);
    lemma_no_colons(collection_id);
    lemma_no_colons(field);
    reveal_with_fuel(colons, 2);
    assert(":"@.drop_last() =~= Seq::<char>::empty());
    assert(colons(":"@) == 1);
    lemma_colons_add(scope_id, ":"@);
    lemma_colons_add(scope_id + ":"@, collection_id);
    lemma_colons_add(scope_id + ":"@ + collection_id, ":"@);
    lemma_colons_add(scope_id + ":"@ + collection_id + ":"@, field);
    let start = scope_id.len() + collection_id.len() + 2;
    assert(key[start - 1] == ':');
    assert forall|j: int| start <= j < key.len() implies key[j] != ':' by {
        assert(key[j] == field[j - start]);
    }
    lemma_field_starts_at(key, start as int);
    assert(last_field(key) =~= field);
}

/// A mutation's token names the vbucket that the mutation was sent to, and has
/// the server's UUID and sequence number each in its place. There is one
/// exactly where the server sent one.
pub proof fn a_token_names_what_was_mutated(
    r: Option<MutationToken>,
    vbucket_id: u16,
    t: Option<WireToken>,
)
    requires
        is_token_of(r, vbucket_id, t),
    ensures
        r is Some <==> t is Some,
        r is Some ==> r->0.spec_vbid() == vbucket_id && r->0.spec_vbuuid() == t->0.vbuuid
            && r->0.spec_seqno() == t->0.seqno,
{
}

/// A failed operation names the document and the keyspace it was for, each in
/// its place, and keeps what the server said and between whom it was said.
pub proof fn a_failure_names_its_document(
    r: Error,
    e: MemdxError,
    key: Seq<u8>,
    at: Dispatch,
    scope: Seq<char>,
    collection: Seq<char>,
)
    requires
        is_failure(r, e, key, at, scope, collection),
    ensures
        r.spec_kind() matches ErrorKind::Memdx(m) && {
            &&& m.spec_source() == e.spec_source()
            &&& m.spec_dispatched_to() == e.spec_dispatched_to()
            &&& m.spec_dispatched_from() == e.spec_dispatched_from()
            &&& m.spec_doc_id() is Some && m.spec_doc_id()->0@ == key
            &&& m.spec_scope_name() is Some && m.spec_scope_name()->0@ == scope
            &&& m.spec_collection_name() is Some && m.spec_collection_name()->0@ == collection
            &&& m.spec_bucket_name() is Some
            &&& at.bucket_name matches Some(name) ==> m.spec_bucket_name()->0@ == name@
            &&& at.bucket_name is None ==> m.spec_bucket_name()->0@.len() == 0
        },
{
}

/// A request runs for the end user it is made on behalf of, and for nobody
/// where there is none.
pub proof fn a_request_runs_for_its_user(
    sent: Option<&str>,
    on_behalf_of: Option<&OnBehalfOfInfo>,
)
    requires
        name_of(sent) == user_of(on_behalf_of),
    ensures
        sent is Some <==> on_behalf_of is Some,
        sent is Some ==> sent->0@ == on_behalf_of->0.username@,
{
}

/// Only the operations that read without a side effect may be repeated freely:
/// what stores, removes, locks, unlocks or touches a document may not.
pub proof fn only_reads_are_idempotent(op: CrudOp)
    ensures
        op.is_idempotent() <==> op is Get || op is GetMeta || op is LookupIn,
{
}

/// A sweep for statistics finds no collection exactly where the server answers
/// with the status for an unknown collection or an unknown scope, with or
/// without a name for what it was asked about.
pub proof fn an_unknown_keyspace_is_a_status(e: memdx::Error)
    ensures
        says_unknown_keyspace(e) <==> ({
            let kind = match e.kind {
                memdx::ErrorKind::Server(s) => Some(s.kind),
                memdx::ErrorKind::Resource(s) => Some(s.kind),
                memdx::ErrorKind::Other => None,
            };
            ||| kind == Some(ServerErrorKind::UnknownStatus { status: Status::CollectionUnknown })
            ||| kind == Some(ServerErrorKind::UnknownStatus { status: Status::ScopeUnknown })
        }),
{
}

/// An ask for a collection's id is answered by a failure itself exactly where
/// the server does not know the collection's name or the scope's. Such a
/// failure is never retried.
pub proof fn an_unknown_name_is_an_answer(e: Error)
    ensures
        is_unknown_name(e) <==> (e.spec_kind() matches ErrorKind::Memdx(m) && ({
            let kind = match m.spec_source().kind {
                memdx::ErrorKind::Server(s) => Some(s.kind),
                memdx::ErrorKind::Resource(s) => Some(s.kind),
                memdx::ErrorKind::Other => None,
            };
            kind == Some(ServerErrorKind::UnknownCollectionName) || kind == Some(
                ServerErrorKind::UnknownScopeName,
            )
        })),
{
}

/// An operation goes by its own name in a retry.
pub proof fn an_operation_goes_by_its_name(op: CrudOp)
    ensures
        op is Upsert ==> op.name() == "upsert"@,
        op is Get ==> op.name() == "get"@,
        op is GetMeta ==> op.name() == "get_meta"@,
        op is Delete ==> op.name() == "delete"@,
        op is GetAndLock ==> op.name() == "get_and_lock"@,
        op is GetAndTouch ==> op.name() == "get_and_touch"@,
        op is Unlock ==> op.name() == "unlock"@,
        op is Touch ==> op.name() == "touch"@,
        op is Add ==> op.name() == "add"@,
        op is Replace ==> op.name() == "replace"@,
        op is Append ==> op.name() == "append"@,
        op is Prepend ==> op.name() == "prepend"@,
        op is Increment ==> op.name() == "increment"@,
        op is Decrement ==> op.name() == "decrement"@,
        op is LookupIn ==> op.name() == "lookup_in"@,
        op is MutateIn ==> op.name() == "mutate_in"@,
{
}

/// The parts of a document come back one for one: each with the value that was
/// answered for it, and with an error exactly where one was answered. The error
/// is the server's own, about this document of this keyspace.
pub proof fn each_part_comes_back_as_it_was_answered(
    r: Seq<SubDocResult>,
    answers: Seq<SubDocAnswer>,
    key: Seq<u8>,
    at: Dispatch,
    scope: Seq<char>,
    collection: Seq<char>,
    i: int,
)
    requires
        are_parts_of(r, answers, key, at, scope, collection),
    ensures
        r.len() == answers.len(),
        0 <= i < answers.len() ==> {
            &&& r[i].value == answers[i].value
            &&& r[i].err is Some <==> answers[i].err is Some
            &&& answers[i].err matches Some(e) ==> {
                let m = r[i].err->0;
                &&& m.spec_source() == e
                &&& m.spec_doc_id() is Some && m.spec_doc_id()->0@ == key
                &&& m.spec_bucket_name() is Some && m.spec_bucket_name()->0@ == at.bucket()
                &&& m.spec_scope_name() is Some && m.spec_scope_name()->0@ == scope
                &&& m.spec_collection_name() is Some && m.spec_collection_name()->0@ == collection
                &&& m.spec_dispatched_to() is None && m.spec_dispatched_from() is None
            }
        },
{
    if 0 <= i < answers.len() {
        assert(is_part_of(r[i], answers[i], key, at, scope, collection));
    }
}

/// A failure about a keyspace names it and keeps what else was known: what the
/// server said, where the request went, and the document. Where no bucket is
/// selected its name is empty.
pub proof fn a_failure_about_a_keyspace_names_it(
    r: Error,
    e: MemdxError,
    bucket_name: Option<String>,
    scope: Seq<char>,
    collection: Seq<char>,
)
    requires
        is_keyspace_failure(r, e, bucket_name, scope, collection),
    ensures
        r.spec_retry_info() is None,
        r.spec_kind() matches ErrorKind::Memdx(m) && {
            &&& m.spec_source() == e.spec_source()
            &&& m.spec_dispatched_to() == e.spec_dispatched_to()
            &&& m.spec_dispatched_from() == e.spec_dispatched_from()
            &&& m.spec_doc_id() == e.spec_doc_id()
            &&& m.spec_bucket_name() is Some && m.spec_bucket_name()->0@ == (match bucket_name {
                Some(name) => name@,
                None => Seq::<char>::empty(),
            })
            &&& m.spec_scope_name() is Some && m.spec_scope_name()->0@ == scope
            &&& m.spec_collection_name() is Some && m.spec_collection_name()->0@ == collection
        },
{
    reveal_strlit("");
    assert(""@ =~= Seq::<char>::empty());
}

} // verus!
