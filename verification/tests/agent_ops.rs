//! Gathering the UUIDs of a bucket's vbuckets.
use std::collections::HashMap;

use couchbase_core::agent_ops::{
    active_nodes, distinct_endpoints, missing_vbuckets, require_complete, required_bucket,
    take_vbuuid_line, vbuuid_map, VbuuidMap, VbuuidSweep,
};
use couchbase_core::error::ErrorKind;
use couchbase_core::string_map::StringMap;

#[test]
fn only_the_active_node_s_uuid_line_is_taken() {
    let mut out = HashMap::new();
    let active: HashMap<u16, String> =
        [(7u16, "10.0.0.1:11210".to_string())].into_iter().collect();

    take_vbuuid_line(&mut out, &active, "10.0.0.1:11210", "vb_7:uuid", "12345");
    take_vbuuid_line(&mut out, &active, "10.0.0.2:11210", "vb_7:uuid", "99999");
    take_vbuuid_line(&mut out, &active, "10.0.0.1:11210", "vb_7:high_seqno", "4");

    assert_eq!(
        out.get(&7),
        Some(&12345u64),
        "the replica's uuid and the non-uuid field are both skipped"
    );
    assert_eq!(out.len(), 1);
}

#[test]
fn a_key_without_the_vb_prefix_is_skipped() {
    let mut out = HashMap::new();
    let active = HashMap::new();
    assert!(take_vbuuid_line(
        &mut out,
        &active,
        "10.0.0.1:11210",
        "curr_connections",
        "5"
    ));
    assert!(out.is_empty());
}

#[test]
fn a_vb_key_without_a_colon_is_skipped() {
    let mut out = HashMap::new();
    let active = HashMap::new();
    assert!(take_vbuuid_line(
        &mut out,
        &active,
        "10.0.0.1:11210",
        "vb_7",
        "12345"
    ));
    assert!(out.is_empty());
}

#[test]
fn a_field_other_than_uuid_is_skipped() {
    let mut out = HashMap::new();
    let active: HashMap<u16, String> =
        [(7u16, "10.0.0.1:11210".to_string())].into_iter().collect();
    assert!(take_vbuuid_line(
        &mut out,
        &active,
        "10.0.0.1:11210",
        "vb_7:high_seqno",
        "4"
    ));
    assert!(out.is_empty());
}

#[test]
fn an_unparsable_vbucket_number_is_skipped() {
    let mut out = HashMap::new();
    let active = HashMap::new();
    assert!(take_vbuuid_line(
        &mut out,
        &active,
        "10.0.0.1:11210",
        "vb_not-a-number:uuid",
        "12345"
    ));
    assert!(out.is_empty());
}

#[test]
fn a_line_from_a_node_not_active_for_that_vbucket_is_skipped() {
    let mut out = HashMap::new();
    let active: HashMap<u16, String> =
        [(7u16, "10.0.0.1:11210".to_string())].into_iter().collect();
    assert!(take_vbuuid_line(
        &mut out,
        &active,
        "10.0.0.2:11210",
        "vb_7:uuid",
        "12345"
    ));
    assert!(out.is_empty());
}

#[test]
fn an_unparsable_uuid_value_is_refused_not_skipped() {
    let mut out = HashMap::new();
    let active: HashMap<u16, String> =
        [(7u16, "10.0.0.1:11210".to_string())].into_iter().collect();
    assert!(!take_vbuuid_line(
        &mut out,
        &active,
        "10.0.0.1:11210",
        "vb_7:uuid",
        "not-a-number"
    ));
    assert!(out.is_empty());
}

#[test]
fn a_complete_map_passes_through_unchanged() {
    let vbuuids: HashMap<u16, u64> = [(0u16, 1u64), (1, 2), (2, 3)].into_iter().collect();
    let out = require_complete(3, vbuuids.clone()).expect("complete map is accepted");
    assert_eq!(out, vbuuids);
}

#[test]
fn an_empty_map_is_refused_not_returned_as_ok() {
    let err = require_complete(3, HashMap::new()).unwrap_err();
    let msg = err.message();
    assert!(msg.contains("got 0 of 3"), "{msg}");
    assert!(msg.contains("0, 1, 2"), "{msg}");
}

#[test]
fn a_partial_map_is_refused_not_returned_as_ok() {
    let vbuuids: HashMap<u16, u64> = [(0u16, 1u64), (2, 3)].into_iter().collect();
    let err = require_complete(3, vbuuids).unwrap_err();
    let msg = err.message();
    assert!(msg.contains("got 2 of 3"), "{msg}");
    assert!(
        msg.contains('1'),
        "the one missing vbucket should be named: {msg}"
    );
}

#[test]
fn missing_vbuckets_lists_the_gaps_in_order() {
    let have: HashMap<u16, u64> = [(0u16, 1u64), (2, 3), (4, 5)].into_iter().collect();
    assert_eq!(missing_vbuckets(5, &have), "1, 3");
}

#[test]
fn missing_vbuckets_is_empty_when_nothing_is_missing() {
    let have: HashMap<u16, u64> = [(0u16, 1u64), (1, 2)].into_iter().collect();
    assert_eq!(missing_vbuckets(2, &have), "");
}

#[test]
fn missing_vbuckets_caps_a_long_list_rather_than_enumerate_it() {
    let have: HashMap<u16, u64> = HashMap::new();
    let msg = missing_vbuckets(25, &have);
    assert!(msg.ends_with("and 5 more"), "{msg}");
    assert_eq!(
        msg.matches(", ").count(),
        20,
        "20 named vbuckets, comma-separated: {msg}"
    );
}

#[test]
fn a_full_map_of_the_wrong_vbuckets_is_refused() {
    let vbuuids: HashMap<u16, u64> = [(0u16, 1u64), (1, 2), (5, 3)].into_iter().collect();
    let err = require_complete(3, vbuuids).unwrap_err();
    assert_eq!(err.message(), "got 3 of 3 vbucket uuids; missing 2");
}

fn two_nodes() -> HashMap<u16, String> {
    let dispatched = vec![
        (0u16, "kvep-a".to_string()),
        (1u16, "kvep-b".to_string()),
        (2u16, "kvep-a".to_string()),
        (3u16, "kvep-gone".to_string()),
    ];
    assert_eq!(
        distinct_endpoints(&dispatched),
        ["kvep-a", "kvep-b", "kvep-gone"]
    );
    let mut canonical = StringMap::new();
    canonical.insert("kvep-a".to_string(), "10.0.0.1:11210".to_string());
    canonical.insert("kvep-b".to_string(), "10.0.0.2:11210".to_string());
    active_nodes(&dispatched, &canonical)
}

#[test]
fn a_vbucket_is_active_where_its_endpoint_resolves_to() {
    let active = two_nodes();
    assert_eq!(active.len(), 3);
    assert_eq!(active[&0], "10.0.0.1:11210");
    assert_eq!(active[&1], "10.0.0.2:11210");
    assert_eq!(active[&2], "10.0.0.1:11210");
}

#[test]
fn a_sweep_without_a_vbucket_map_does_not_begin() {
    let Err(err) = VbuuidSweep::begin(0, HashMap::new()) else {
        panic!("there is nothing to sweep");
    };
    assert_eq!(
        err.message(),
        "no vbucket map yet, so no scan vector can be built"
    );
}

#[test]
fn a_sweep_gathers_every_vbucket_from_its_active_node() {
    let Ok(mut sweep) = VbuuidSweep::begin(3, two_nodes()) else {
        panic!("there are vbuckets");
    };
    sweep.line("10.0.0.1:11210", b"vb_0:uuid", b"100");
    sweep.line("10.0.0.2:11210", b"vb_0:uuid", b"999");
    sweep.line("10.0.0.2:11210", b"vb_1:uuid", b"101");
    sweep.line("10.0.0.1:11210", b"vb_2:uuid", b"102");
    let map = sweep.finish().expect("a whole map");
    assert_eq!(map.len(), 3);
    assert_eq!((map[&0], map[&1], map[&2]), (100, 101, 102));
}

#[test]
fn a_sweep_reports_the_first_line_it_cannot_parse() {
    let Ok(mut sweep) = VbuuidSweep::begin(3, two_nodes()) else {
        panic!("there are vbuckets");
    };
    sweep.line("10.0.0.1:11210", b"vb_0:uuid", b"x\"y");
    sweep.line("10.0.0.2:11210", b"vb_1:uuid", b"z");
    let err = sweep.finish().expect_err("a line was unreadable");
    assert_eq!(
        err.message(),
        "could not parse vbucket-seqno vb_0:uuid = \"x\\\"y\""
    );
}

#[test]
fn a_sweep_with_a_hole_is_refused() {
    let Ok(mut sweep) = VbuuidSweep::begin(3, two_nodes()) else {
        panic!("there are vbuckets");
    };
    sweep.line("10.0.0.1:11210", b"vb_0:uuid", b"100");
    sweep.line("10.0.0.1:11210", b"vb_2:uuid", b"102");
    let err = sweep.finish().expect_err("vbucket 1 is missing");
    assert_eq!(err.message(), "got 2 of 3 vbucket uuids; missing 1");
    assert!(err.retry_info().is_none());
}

#[test]
fn a_map_is_cached_under_the_revision_before_the_read() {
    match vbuuid_map(Some((1, 7)), None::<u8>) {
        VbuuidMap::Read(revision) => assert_eq!(revision, Some((1, 7))),
        VbuuidMap::Cached(_) => panic!("nothing was cached"),
    }
    match vbuuid_map(Some((1, 7)), Some(9u8)) {
        VbuuidMap::Cached(map) => assert_eq!(map, 9),
        VbuuidMap::Read(_) => panic!("the map is cached"),
    }
}

#[test]
fn an_index_scan_without_a_bucket_is_refused() {
    assert_eq!(
        required_bucket(Some("travel".to_string())).expect("a bucket"),
        "travel"
    );
    let err = required_bucket(None).expect_err("no bucket");
    assert!(matches!(err.kind(), ErrorKind::NoBucket));
    assert!(err.retry_info().is_none());
}
