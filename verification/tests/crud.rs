//! The key-value operations.
use std::time::Duration;

use couchbase_core::crudcomponent::{
    collection_id_failed, concatenated, finish_collection_stats, is_unknown_keyspace,
    take_collection_stat, unknown_name, CollectionIdStep, CollectionStatsStep,
    CollectionStatsSweep, CrudComponent, CrudOp, Dispatch, StatsSweep,
};
use couchbase_core::crudoptions::{
    AddOptions, AppendOptions, CollectionStatsOptions, DecrementOptions, DeleteOptions,
    GetAndLockOptions, GetAndTouchOptions, GetCollectionIdOptions, GetMetaOptions, GetOptions,
    IncrementOptions, LookupInOptions, MutateInOptions, OnBehalfOfInfo, PrependOptions,
    RangeScanCreateOptions, ReplaceOptions, TouchOptions, UnlockOptions, UpsertOptions,
};
use couchbase_core::error::{Error, ErrorKind, MemdxError};
use couchbase_core::kvrequest::{
    AddResponse, AppendResponse, DecrementResponse, DeleteResponse, GetAndLockResponse,
    GetAndTouchResponse, GetCollectionIdResponse, GetMetaResponse, GetResponse,
    IncrementResponse, LookupInResponse, MutateInResponse, PrependResponse, ReplaceResponse,
    RequestedVbState, SetResponse, SubDocAnswer, TouchResponse, UnlockResponse, VbSeqno,
    WireToken,
};
use couchbase_core::kvresult::{CollectionStats, StatsResult};
use couchbase_core::memdx;
use couchbase_core::memdx::{DataTypeFlag, OpCode, ServerError, ServerErrorKind, Status};
use couchbase_core::mutationtoken::MutationToken;
use couchbase_core::retry::RetryRequest;

fn server_error(e: ServerError) -> memdx::Error {
    memdx::Error {
        kind: memdx::ErrorKind::Server(e),
        text: "refused".to_string(),
        metrics_name: "refused".to_string(),
        source: None,
    }
}

fn failed_with(kind: ServerErrorKind) -> MemdxError {
    MemdxError::new(server_error(ServerError::new(
        kind,
        OpCode::Other(0),
        Status::Other(1),
        0,
    )))
}

#[test]
fn seqnos_from_every_node_concatenate() {
    let per_node = vec![
        vec![VbSeqno {
            vbucket: 0,
            seqno: 5,
        }],
        vec![VbSeqno {
            vbucket: 1,
            seqno: 7,
        }],
    ];
    let all: Vec<VbSeqno> = concatenated(per_node);
    assert_eq!(all.len(), 2);
    assert_eq!(all[1].vbucket, 1);
}

#[test]
fn totals_sum_across_nodes() {
    let mut totals = CollectionStats::default();
    for (items, size) in [("13438", "100"), ("13434", "100"), ("13128", "100")] {
        take_collection_stat(&mut totals, "8:9:items", items);
        take_collection_stat(&mut totals, "8:9:data_size", size);
    }
    assert_eq!(totals.count, 40000);
    assert_eq!(totals.size, 300);
}

#[test]
fn an_unknown_field_is_skipped_rather_than_refused() {
    let mut totals = CollectionStats::default();
    take_collection_stat(&mut totals, "8:9:items", "5");
    take_collection_stat(&mut totals, "8:9:data_size", "500");
    take_collection_stat(&mut totals, "8:9:ops_get", "99");
    take_collection_stat(&mut totals, "not-a-key", "1");
    assert_eq!((totals.count, totals.size), (5, 500));
}

#[test]
fn no_rows_seen_is_not_zero_documents() {
    assert_eq!(
        finish_collection_stats(CollectionStats::default(), false),
        None
    );
}

#[test]
fn a_collection_with_no_documents_is_still_some() {
    assert_eq!(
        finish_collection_stats(CollectionStats::default(), true),
        Some(CollectionStats::default())
    );
}

#[test]
fn collection_unknown_and_scope_unknown_are_typed_absence() {
    let unknown_collection = server_error(ServerError::new(
        ServerErrorKind::UnknownStatus {
            status: Status::CollectionUnknown,
        },
        OpCode::Stat,
        Status::CollectionUnknown,
        0,
    ));
    let unknown_scope = server_error(ServerError::new(
        ServerErrorKind::UnknownStatus {
            status: Status::ScopeUnknown,
        },
        OpCode::Stat,
        Status::ScopeUnknown,
        0,
    ));
    let key_not_found = server_error(ServerError::new(
        ServerErrorKind::KeyNotFound,
        OpCode::Stat,
        Status::KeyNotFound,
        0,
    ));

    assert!(is_unknown_keyspace(&unknown_collection));
    assert!(is_unknown_keyspace(&unknown_scope));
    assert!(!is_unknown_keyspace(&key_not_found));
}

fn at() -> Dispatch {
    Dispatch {
        collection_id: 9,
        vbucket_id: 77,
        bucket_name: Some("travel".to_string()),
    }
}

fn user() -> OnBehalfOfInfo {
    OnBehalfOfInfo {
        username: "alice".to_string(),
    }
}

fn assert_in_context(e: &Error) {
    let ErrorKind::Memdx(m) = e.kind() else {
        panic!("expected an operation's failure");
    };
    assert_eq!(m.doc_id(), Some(&b"k"[..]));
    assert_eq!(m.bucket_name().map(String::as_str), Some("travel"));
    assert_eq!(m.scope_name().map(String::as_str), Some("s"));
    assert_eq!(m.collection_name().map(String::as_str), Some("c"));
}

const TOKEN: Option<WireToken> = Some(WireToken {
    vbuuid: 5,
    seqno: 6,
});

fn token() -> Option<MutationToken> {
    Some(MutationToken::new(77, 5, 6))
}

#[test]
fn only_the_reads_are_idempotent() {
    let ops = [
        (CrudOp::Upsert, "upsert", false),
        (CrudOp::Get, "get", true),
        (CrudOp::GetMeta, "get_meta", true),
        (CrudOp::Delete, "delete", false),
        (CrudOp::GetAndLock, "get_and_lock", false),
        (CrudOp::GetAndTouch, "get_and_touch", false),
        (CrudOp::Unlock, "unlock", false),
        (CrudOp::Touch, "touch", false),
        (CrudOp::Add, "add", false),
        (CrudOp::Replace, "replace", false),
        (CrudOp::Append, "append", false),
        (CrudOp::Prepend, "prepend", false),
        (CrudOp::Increment, "increment", false),
        (CrudOp::Decrement, "decrement", false),
        (CrudOp::LookupIn, "lookup_in", true),
        (CrudOp::MutateIn, "mutate_in", false),
    ];
    for (op, name, idempotent) in ops {
        let retry = op.retry_request();
        assert_eq!(retry.operation, name);
        assert_eq!(retry.is_idempotent, idempotent, "{name}");
        assert_eq!(retry.retry_attempts, 0);
    }
}

#[test]
fn what_extends_a_value_does_not_say_what_it_is() {
    assert_eq!(
        CrudOp::Append.compressed_as(DataTypeFlag::Json),
        DataTypeFlag::Raw
    );
    assert_eq!(
        CrudOp::Prepend.compressed_as(DataTypeFlag::Json),
        DataTypeFlag::Raw
    );
    assert_eq!(
        CrudOp::Upsert.compressed_as(DataTypeFlag::Json),
        DataTypeFlag::Json
    );
}

#[test]
fn an_upsert_sends_its_options_and_names_the_vbucket_it_was_sent_to() {
    let alice = user();
    let opts = UpsertOptions {
        key: b"k",
        scope_name: "s",
        collection_name: "c",
        value: b"{}",
        flags: 3,
        datatype: DataTypeFlag::Json,
        expiry: Some(60),
        preserve_expiry: Some(true),
        cas: Some(4),
        durability_level: Some(1),
        on_behalf_of: Some(&alice),
    };
    let request = CrudComponent::upsert(&opts, &at(), Ok((b"zz".to_vec(), DataTypeFlag::Compressed)))
        .expect("a request");
    assert_eq!(request.collection_id, 9);
    assert_eq!(request.key, b"k");
    assert_eq!(request.vbucket_id, 77);
    assert_eq!(request.flags, 3);
    assert_eq!(request.value, b"zz");
    assert_eq!(request.datatype, DataTypeFlag::Compressed);
    assert_eq!(request.expiry, Some(60));
    assert_eq!(request.preserve_expiry, Some(true));
    assert_eq!(request.cas, Some(4));
    assert_eq!(request.on_behalf_of, Some("alice"));
    assert_eq!(request.durability_level, Some(1));
    assert_eq!(request.durability_level_timeout, None);

    let result = CrudComponent::upserted(
        &opts,
        &at(),
        Ok(SetResponse {
            cas: 11,
            mutation_token: TOKEN,
        }),
    )
    .expect("a result");
    assert_eq!(result.cas, 11);
    assert_eq!(result.mutation_token, token());

    let err = CrudComponent::upserted(&opts, &at(), Err(failed_with(ServerErrorKind::KeyNotFound)))
        .expect_err("a failure");
    assert_in_context(&err);

    let err = CrudComponent::upsert(&opts, &at(), Err(Error::new_message_error("no room")))
        .expect_err("the compressor failed");
    assert_eq!(err.message(), "no room");
}

#[test]
fn reads_hand_on_what_was_answered() {
    let opts = GetOptions {
        key: b"k",
        scope_name: "s",
        collection_name: "c",
        on_behalf_of: None,
    };
    let request = CrudComponent::get(&opts, &at());
    assert_eq!((request.collection_id, request.vbucket_id), (9, 77));
    assert_eq!(request.on_behalf_of, None);
    let result = CrudComponent::got(
        &opts,
        &at(),
        Ok(GetResponse {
            value: b"{}".to_vec(),
            datatype: DataTypeFlag::Json,
            cas: 3,
            flags: 2,
        }),
    )
    .expect("a result");
    assert_eq!(
        (result.value, result.datatype, result.cas, result.flags),
        (b"{}".to_vec(), DataTypeFlag::Json, 3, 2)
    );
    assert_in_context(
        &CrudComponent::got(&opts, &at(), Err(failed_with(ServerErrorKind::KeyNotFound)))
            .expect_err("a failure"),
    );

    let opts = GetMetaOptions {
        key: b"k",
        scope_name: "s",
        collection_name: "c",
        on_behalf_of: None,
    };
    assert_eq!(CrudComponent::get_meta(&opts, &at()).key, b"k");
    let meta = CrudComponent::got_meta(
        &opts,
        &at(),
        Ok(GetMetaResponse {
            value: vec![1],
            datatype: DataTypeFlag::Raw,
            server_duration: Some(8),
            expiry: 60,
            seq_no: 5,
            cas: 3,
            flags: 2,
            deleted: true,
        }),
    )
    .expect("a result");
    assert_eq!((meta.seq_no, meta.expiry, meta.deleted), (5, 60, true));
    assert_eq!(meta.server_duration, Some(8));
}

#[test]
fn locks_and_touches_say_for_how_long() {
    let opts = GetAndLockOptions {
        key: b"k",
        scope_name: "s",
        collection_name: "c",
        lock_time: 15,
        on_behalf_of: None,
    };
    assert_eq!(CrudComponent::get_and_lock(&opts, &at()).lock_time, 15);
    let locked = CrudComponent::got_and_locked(
        &opts,
        &at(),
        Ok(GetAndLockResponse {
            value: vec![1],
            datatype: DataTypeFlag::Raw,
            cas: 3,
            flags: 2,
        }),
    )
    .expect("a result");
    assert_eq!(locked.cas, 3);

    let opts = GetAndTouchOptions {
        key: b"k",
        scope_name: "s",
        collection_name: "c",
        expiry: 90,
        on_behalf_of: None,
    };
    assert_eq!(CrudComponent::get_and_touch(&opts, &at()).expiry, 90);
    let touched = CrudComponent::got_and_touched(
        &opts,
        &at(),
        Ok(GetAndTouchResponse {
            value: vec![1],
            datatype: DataTypeFlag::Raw,
            cas: 4,
            flags: 2,
        }),
    )
    .expect("a result");
    assert_eq!(touched.cas, 4);

    let opts = UnlockOptions {
        key: b"k",
        scope_name: "s",
        collection_name: "c",
        cas: 3,
        on_behalf_of: None,
    };
    assert_eq!(CrudComponent::unlock(&opts, &at()).cas, 3);
    assert!(CrudComponent::unlocked(&opts, &at(), Ok(UnlockResponse {})).is_ok());
    assert_in_context(
        &CrudComponent::unlocked(&opts, &at(), Err(failed_with(ServerErrorKind::KeyNotFound)))
            .expect_err("a failure"),
    );

    let opts = TouchOptions {
        key: b"k",
        scope_name: "s",
        collection_name: "c",
        expiry: 91,
        on_behalf_of: None,
    };
    assert_eq!(CrudComponent::touch(&opts, &at()).expiry, 91);
    let touched =
        CrudComponent::touched(&opts, &at(), Ok(TouchResponse { cas: 6 })).expect("a result");
    assert_eq!(touched.cas, 6);
}

#[test]
fn every_mutation_names_its_token() {
    let compressed = || Ok((b"zz".to_vec(), DataTypeFlag::Raw));
    let delete = DeleteOptions {
        key: b"k",
        scope_name: "s",
        collection_name: "c",
        cas: Some(2),
        durability_level: None,
        on_behalf_of: None,
    };
    assert_eq!(CrudComponent::delete(&delete, &at()).cas, Some(2));
    let r = CrudComponent::deleted(
        &delete,
        &at(),
        Ok(DeleteResponse {
            cas: 1,
            mutation_token: TOKEN,
        }),
    );
    assert_eq!(r.expect("a result").mutation_token, token());

    let add = AddOptions {
        key: b"k",
        scope_name: "s",
        collection_name: "c",
        value: b"v",
        flags: 7,
        datatype: DataTypeFlag::Json,
        expiry: None,
        durability_level: None,
        on_behalf_of: None,
    };
    let request = CrudComponent::add(&add, &at(), compressed()).expect("a request");
    assert_eq!((request.flags, request.value), (7, b"zz".to_vec()));
    let r = CrudComponent::added(
        &add,
        &at(),
        Ok(AddResponse {
            cas: 1,
            mutation_token: None,
        }),
    );
    assert_eq!(r.expect("a result").mutation_token, None);

    let replace = ReplaceOptions {
        key: b"k",
        scope_name: "s",
        collection_name: "c",
        value: b"v",
        flags: 7,
        datatype: DataTypeFlag::Json,
        expiry: None,
        preserve_expiry: Some(false),
        cas: Some(8),
        durability_level: None,
        on_behalf_of: None,
    };
    let request = CrudComponent::replace(&replace, &at(), compressed()).expect("a request");
    assert_eq!((request.preserve_expiry, request.cas), (Some(false), Some(8)));
    let r = CrudComponent::replaced(
        &replace,
        &at(),
        Ok(ReplaceResponse {
            cas: 1,
            mutation_token: TOKEN,
        }),
    );
    assert_eq!(r.expect("a result").mutation_token, token());

    let append = AppendOptions {
        key: b"k",
        scope_name: "s",
        collection_name: "c",
        value: b"v",
        cas: Some(8),
        durability_level: None,
        on_behalf_of: None,
    };
    let request = CrudComponent::append(&append, &at(), compressed()).expect("a request");
    assert_eq!((request.cas, request.value), (Some(8), b"zz".to_vec()));
    let r = CrudComponent::appended(
        &append,
        &at(),
        Ok(AppendResponse {
            cas: 1,
            mutation_token: TOKEN,
        }),
    );
    assert_eq!(r.expect("a result").mutation_token, token());

    let prepend = PrependOptions {
        key: b"k",
        scope_name: "s",
        collection_name: "c",
        value: b"v",
        cas: None,
        durability_level: None,
        on_behalf_of: None,
    };
    let request = CrudComponent::prepend(&prepend, &at(), compressed()).expect("a request");
    assert_eq!((request.cas, request.key), (None, &b"k"[..]));
    let r = CrudComponent::prepended(
        &prepend,
        &at(),
        Ok(PrependResponse {
            cas: 1,
            mutation_token: TOKEN,
        }),
    );
    assert_eq!(r.expect("a result").mutation_token, token());

    let increment = IncrementOptions {
        key: b"k",
        scope_name: "s",
        collection_name: "c",
        initial: Some(1),
        delta: Some(2),
        expiry: None,
        durability_level: None,
        on_behalf_of: None,
    };
    let request = CrudComponent::increment(&increment, &at());
    assert_eq!((request.initial, request.delta), (Some(1), Some(2)));
    let r = CrudComponent::incremented(
        &increment,
        &at(),
        Ok(IncrementResponse {
            cas: 1,
            value: 3,
            mutation_token: TOKEN,
        }),
    )
    .expect("a result");
    assert_eq!((r.value, r.mutation_token), (3, token()));

    let decrement = DecrementOptions {
        key: b"k",
        scope_name: "s",
        collection_name: "c",
        initial: None,
        delta: Some(4),
        expiry: Some(1),
        durability_level: None,
        on_behalf_of: None,
    };
    let request = CrudComponent::decrement(&decrement, &at());
    assert_eq!((request.delta, request.expiry), (Some(4), Some(1)));
    let r = CrudComponent::decremented(
        &decrement,
        &at(),
        Ok(DecrementResponse {
            cas: 1,
            value: 9,
            mutation_token: None,
        }),
    )
    .expect("a result");
    assert_eq!((r.value, r.mutation_token), (9, None));
}

#[test]
fn a_failed_part_of_a_document_is_named_in_its_context() {
    let opts = LookupInOptions {
        key: b"k",
        scope_name: "s",
        collection_name: "c",
        flags: Some(4),
        ops: &[],
        on_behalf_of: None,
    };
    assert_eq!(CrudComponent::lookup_in(&opts, &at()).flags, Some(4));
    let answers = || {
        vec![
            SubDocAnswer {
                err: None,
                value: Some(b"1".to_vec()),
            },
            SubDocAnswer {
                err: Some(server_error(ServerError::new(
                    ServerErrorKind::Other,
                    OpCode::Other(1),
                    Status::Other(2),
                    0,
                ))),
                value: None,
            },
        ]
    };
    let result = CrudComponent::looked_up_in(
        &opts,
        &at(),
        Ok(LookupInResponse {
            ops: answers(),
            cas: 2,
            doc_is_deleted: true,
        }),
    )
    .expect("a result");
    assert!(result.doc_is_deleted);
    assert!(result.value[0].err.is_none());
    assert_eq!(result.value[0].value, Some(b"1".to_vec()));
    let err = result.value[1].err.as_ref().expect("a failed part");
    assert_eq!(err.doc_id(), Some(&b"k"[..]));
    assert_eq!(err.bucket_name().map(String::as_str), Some("travel"));

    let opts = MutateInOptions {
        key: b"k",
        scope_name: "s",
        collection_name: "c",
        flags: None,
        ops: &[],
        expiry: Some(1),
        preserve_expiry: None,
        cas: Some(3),
        durability_level: Some(2),
        on_behalf_of: None,
    };
    let request = CrudComponent::mutate_in(&opts, &at());
    assert_eq!((request.cas, request.durability_level), (Some(3), Some(2)));
    let result = CrudComponent::mutated_in(
        &opts,
        &at(),
        Ok(MutateInResponse {
            ops: answers(),
            cas: 2,
            mutation_token: TOKEN,
        }),
    )
    .expect("a result");
    assert_eq!(result.mutation_token, token());
    assert_eq!(result.value.len(), 2);
    assert!(result.value[1].err.is_some());
    assert_in_context(
        &CrudComponent::mutated_in(&opts, &at(), Err(failed_with(ServerErrorKind::KeyNotFound)))
            .expect_err("a failure"),
    );
}

#[test]
fn a_range_scan_is_routed_by_its_vbucket() {
    let alice = user();
    let request = CrudComponent::range_scan_create(
        RangeScanCreateOptions {
            vbucket_id: 12,
            scope_name: "s",
            collection_name: "c",
            keys_only: true,
            range: "range",
            sampling: (),
            snapshot: 5u8,
            on_behalf_of: Some(&alice),
        },
        9,
    );
    assert_eq!(request.vbucket_id, 12);
    assert_eq!(request.config.collection_id, 9);
    assert!(request.config.keys_only);
    assert_eq!((request.config.range, request.config.snapshot), ("range", 5));
    assert_eq!(request.on_behalf_of, Some("alice"));
    assert!(CrudComponent::range_scan_retry().is_idempotent);

    let err = CrudComponent::range_scan_failed(
        failed_with(ServerErrorKind::UnknownCollectionID),
        None,
        "s",
        "c",
    );
    let ErrorKind::Memdx(m) = err.kind() else {
        panic!("expected an operation's failure");
    };
    assert_eq!(m.bucket_name().map(String::as_str), Some(""));
    assert_eq!(m.doc_id(), None);
}

fn id_failure(kind: ServerErrorKind) -> Error {
    let opts = GetCollectionIdOptions {
        scope_name: "s",
        collection_name: "c",
    };
    CrudComponent::got_collection_id(Some("travel".to_string()), &opts, Err(failed_with(kind)))
        .expect_err("a failure")
}

fn retried(attempts: u32) -> RetryRequest {
    let mut retry = CrudComponent::collection_id_retry();
    retry.retry_attempts = attempts;
    retry
}

#[test]
fn an_unknown_name_is_not_asked_for_again() {
    for kind in [
        ServerErrorKind::UnknownCollectionName,
        ServerErrorKind::UnknownScopeName,
    ] {
        assert!(unknown_name(&id_failure(kind)));
        match collection_id_failed(id_failure(kind), retried(3), Some(Duration::from_millis(50))) {
            CollectionIdStep::Fail(e) => assert!(e.retry_info().is_none()),
            CollectionIdStep::RetryAfter(_) => panic!("the server does not know the name"),
        }
    }
    assert!(!unknown_name(&Error::new_message_error("else")));
}

#[test]
fn a_failed_ask_for_an_id_is_retried_or_says_how_often_it_was() {
    let kind = ServerErrorKind::Other;
    match collection_id_failed(id_failure(kind), retried(0), Some(Duration::from_micros(50))) {
        CollectionIdStep::RetryAfter(rest) => assert_eq!(rest, Duration::from_micros(50)),
        CollectionIdStep::Fail(_) => panic!("the strategy said to retry"),
    }
    match collection_id_failed(id_failure(kind), retried(0), None) {
        CollectionIdStep::Fail(e) => assert!(e.retry_info().is_none()),
        CollectionIdStep::RetryAfter(_) => panic!("there is nothing to wait for"),
    }
    match collection_id_failed(id_failure(kind), retried(2), None) {
        CollectionIdStep::Fail(e) => {
            assert_eq!(e.retry_info().map(|r| r.retry_attempts), Some(2));
        }
        CollectionIdStep::RetryAfter(_) => panic!("there is nothing to wait for"),
    }
}

#[test]
fn a_collection_id_is_handed_on_with_its_manifest() {
    let opts = GetCollectionIdOptions {
        scope_name: "s",
        collection_name: "c",
    };
    let request = CrudComponent::get_collection_id(&opts);
    assert_eq!((request.scope_name, request.collection_name), ("s", "c"));
    let result = CrudComponent::got_collection_id(
        None,
        &opts,
        Ok(GetCollectionIdResponse {
            collection_id: 8,
            manifest_rev: 4,
        }),
    )
    .expect("an id");
    assert_eq!((result.collection_id, result.manifest_rev), (8, 4));
}

#[test]
fn only_active_vbuckets_are_asked_for() {
    let request = CrudComponent::vbucket_seqnos_active(Some(8));
    assert_eq!(request.state, RequestedVbState::Active);
    assert_eq!(request.collection_id, Some(8));
    assert!(request.on_behalf_of.is_none());
}

#[test]
fn a_stats_sweep_counts_what_it_hands_on() {
    let mut sweep = StatsSweep::new(3);
    let entry = sweep.entry("10.0.0.1:11210", b"ops".to_vec(), b"5".to_vec());
    assert_eq!(entry.endpoint, "10.0.0.1:11210");
    assert_eq!((entry.key, entry.value), (b"ops".to_vec(), b"5".to_vec()));
    sweep.entry("10.0.0.2:11210", b"ops".to_vec(), b"6".to_vec());
    assert_eq!(
        sweep.finish(),
        StatsResult {
            endpoints: 3,
            entries: 2
        }
    );
}

#[test]
fn a_collection_sweep_adds_up_its_nodes() {
    let alice = user();
    let opts = CollectionStatsOptions {
        scope_name: "inventory",
        collection_name: "airline",
        on_behalf_of: Some(&alice),
    };
    let mut sweep = CollectionStatsSweep::new(&opts);
    let request = sweep.request(&opts);
    assert_eq!(request.group_name, "collections inventory.airline");
    assert_eq!(request.on_behalf_of, Some("alice"));

    assert!(sweep.take(b"8:9:items", b"5"));
    assert!(matches!(sweep.node_done(Ok(())), CollectionStatsStep::Next));
    assert!(sweep.take(b"8:9:items", b"+7"));
    assert!(sweep.take(b"8:9:data_size", b"500"));
    assert!(sweep.take(b"8:9:items", b"-1"), "no number adds nothing");
    assert!(!sweep.take(b"8:9:items", b"18446744073709551615"));
    assert_eq!(
        sweep.finish(),
        Some(CollectionStats {
            count: 12,
            size: 500
        })
    );
}

#[test]
fn a_collection_sweep_ends_at_the_first_node_that_does_not_know_it() {
    let opts = CollectionStatsOptions {
        scope_name: "s",
        collection_name: "c",
        on_behalf_of: None,
    };
    let sweep = CollectionStatsSweep::new(&opts);
    let unknown = failed_with(ServerErrorKind::UnknownStatus {
        status: Status::ScopeUnknown,
    });
    assert!(matches!(
        sweep.node_done(Err(unknown)),
        CollectionStatsStep::Absent
    ));
    assert!(matches!(
        sweep.node_done(Err(failed_with(ServerErrorKind::KeyNotFound))),
        CollectionStatsStep::Fail(_)
    ));
    assert_eq!(sweep.finish(), None);
}

#[test]
fn a_key_of_another_shape_adds_nothing() {
    let mut totals = CollectionStats::default();
    take_collection_stat(&mut totals, "items", "5");
    take_collection_stat(&mut totals, "9:items", "5");
    take_collection_stat(&mut totals, "7:8:9:items", "5");
    take_collection_stat(&mut totals, ":data_size", "5");
    assert_eq!(totals, CollectionStats::default());
    take_collection_stat(&mut totals, "0x8:0x9:items", "5");
    assert_eq!((totals.count, totals.size), (5, 0));
}
