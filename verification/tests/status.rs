//! The index listing.
use couchbase_core::indexerx::error::ErrorKind;
use couchbase_core::indexerx::status::{
    check_index_status, index_status_url, refuse_index_status, unreadable_index_status,
    IndexStatus,
};
use couchbase_core::string_map::StringMap;
use serde_json::Value;

const SAMPLE: &str = r##"{
      "status": [
        {
          "defnId": 8891234567890,
          "instId": 1122334455,
          "name": "ix_a (replica 1)",
          "indexName": "ix_a",
          "bucket": "travel",
          "scope": "inventory",
          "collection": "airline",
          "secExprs": ["`a`.`r`", "`a`.`v`"],
          "where": "(`a`.`z`) != 4",
          "definition": "CREATE INDEX `ix_a` ON `travel`.`inventory`.`airline`((`a`.`r`),(`a`.`v`)) PARTITION BY hash((meta().`id`)) WITH {  \"nodes\":[ \"10.0.0.1:8091\",\"10.0.0.2:8091\" ], \"num_partition\":4 }",
          "status": "Ready",
          "isPrimary": false,
          "partitioned": true,
          "numPartition": 2,
          "partitionMap": { "10.0.0.1:8091": [1, 2] },
          "hosts": ["10.0.0.1:8091"],
          "numReplica": 1,
          "replicaId": 1,
          "completion": 100,
          "progress": 100.0
        },
        {
          "defnId": 8891234567890,
          "instId": 1122334455,
          "name": "ix_a (replica 1)",
          "indexName": "ix_a",
          "bucket": "travel",
          "scope": "inventory",
          "collection": "airline",
          "secExprs": ["`a`.`r`", "`a`.`v`"],
          "where": "(`a`.`z`) != 4",
          "definition": "CREATE INDEX `ix_a` ON `travel`.`inventory`.`airline`((`a`.`r`),(`a`.`v`)) PARTITION BY hash((meta().`id`)) WITH {  \"nodes\":[ \"10.0.0.1:8091\",\"10.0.0.2:8091\" ], \"num_partition\":4 }",
          "status": "Ready",
          "isPrimary": false,
          "partitioned": true,
          "numPartition": 2,
          "partitionMap": { "10.0.0.2:8091": [3, 4] },
          "hosts": ["10.0.0.2:8091"],
          "numReplica": 1,
          "replicaId": 1,
          "completion": 100,
          "progress": 100.0
        },
        {
          "defnId": 42,
          "indexName": "#primary",
          "bucket": "travel",
          "scope": "_default",
          "collection": "_default",
          "status": "Building",
          "isPrimary": true,
          "numPartition": 1,
          "partitionMap": { "10.0.0.1:8091": [0] },
          "hosts": ["10.0.0.1:8091"]
        }
      ]
    }"##;

fn text(v: &Value, key: &str) -> String {
    v[key].as_str().unwrap_or_default().to_string()
}

fn texts(v: &Value, key: &str) -> Vec<String> {
    v[key]
        .as_array()
        .map(|list| {
            list.iter()
                .map(|t| t.as_str().expect("a text").to_string())
                .collect()
        })
        .unwrap_or_default()
}

fn number(v: &Value, key: &str) -> u64 {
    v[key].as_u64().unwrap_or_default()
}

fn status(v: &Value) -> IndexStatus {
    IndexStatus {
        defn_id: v["defnId"].as_u64().expect("an id"),
        inst_id: number(v, "instId"),
        index_name: text(v, "indexName"),
        bucket: text(v, "bucket"),
        scope: text(v, "scope"),
        collection: text(v, "collection"),
        status: text(v, "status"),
        is_primary: v["isPrimary"].as_bool().unwrap_or_default(),
        partitioned: v["partitioned"].as_bool().unwrap_or_default(),
        num_partition: number(v, "numPartition") as u32,
        definition: text(v, "definition"),
        partition_map: partitions(v),
        hosts: texts(v, "hosts"),
        num_replica: number(v, "numReplica") as u32,
        replica_id: number(v, "replicaId") as u32,
        sec_exprs: texts(v, "secExprs"),
        where_expr: v["where"].as_str().map(str::to_string),
    }
}

fn partitions(v: &Value) -> StringMap<Vec<u64>> {
    let mut map = StringMap::new();
    for (host, parts) in v["partitionMap"].as_object().into_iter().flatten() {
        let parts = parts.as_array().expect("partitions");
        let parts = parts.iter().map(|p| p.as_u64().expect("a number"));
        map.insert(host.clone(), parts.collect());
    }
    map
}

fn listing(source: &str) -> Vec<IndexStatus> {
    let v: Value = serde_json::from_str(source).expect("parse");
    v["status"]
        .as_array()
        .expect("rows")
        .iter()
        .map(status)
        .collect()
}

fn parse() -> Vec<IndexStatus> {
    listing(SAMPLE)
}

fn held(row: &IndexStatus, host: &str) -> Vec<u64> {
    row.partition_map.get(host).expect("the host").clone()
}

#[test]
fn a_partitioned_index_is_one_row_per_host_and_not_one_row() {
    let indexes = parse();
    let rows: Vec<&IndexStatus> = indexes.iter().filter(|s| s.index_name == "ix_a").collect();

    assert_eq!(rows.len(), 2, "one row per host");
    assert_eq!(rows[0].defn_id, 8_891_234_567_890);
    assert_eq!(
        rows[0].index_name, "ix_a",
        "the N1QL name, not the display name"
    );
    assert_eq!(rows[0].inst_id, rows[1].inst_id, "one instance, two rows");
    assert_eq!(rows[0].num_partition, 2, "this host's share, not the total");
    assert_eq!(
        held(rows[0], "10.0.0.1:8091"),
        vec![1, 2],
        "keyed by the mgmt port, measured against 8.0"
    );
    assert_eq!(held(rows[1], "10.0.0.2:8091"), vec![3, 4]);
    assert_eq!(rows[0].keyspace(), ("travel", "inventory", "airline"));
}

#[test]
fn the_declared_partition_count_comes_out_of_the_ddl() {
    assert_eq!(parse()[0].declared_partitions(), Some(4));
}

#[test]
fn an_index_whose_ddl_named_no_count_declares_nothing() {
    let mut ix = parse()[0].clone();
    ix.definition =
        "CREATE INDEX `ix_a` ON `travel`.`inventory`.`airline`(`a`) PARTITION BY hash((meta().`id`))"
            .to_string();
    assert_eq!(ix.declared_partitions(), None);
    ix.definition = String::new();
    assert_eq!(ix.declared_partitions(), None);
}

#[test]
fn key_expressions_and_a_partial_condition_come_through() {
    let ix = &parse()[0];
    assert_eq!(ix.sec_exprs, vec!["`a`.`r`", "`a`.`v`"]);
    assert_eq!(ix.where_expr.as_deref(), Some("(`a`.`z`) != 4"));
}

#[test]
fn a_non_partitioned_index_has_the_single_partition_zero() {
    let ix = &parse()[2];
    assert_eq!(ix.num_partition, 1);
    assert_eq!(held(ix, "10.0.0.1:8091"), vec![0]);
}

#[test]
fn only_ready_can_serve_a_scan() {
    let indexes = parse();
    assert!(indexes[0].is_ready());
    assert!(
        !indexes[2].is_ready(),
        "Building would answer a scan with index-not-ready"
    );
}

#[test]
fn replicas_share_a_defn_id_and_differ_in_replica_id() {
    let ix = &parse()[0];
    assert_eq!(ix.replica_id, 1);
    assert_eq!(ix.num_replica, 1);
}

#[test]
fn an_index_that_is_only_scheduled_nulls_its_partition_map() {
    let scheduled = r#"{"status":[{
        "defnId":4432614232985572278,
        "instId":4432614232985572278,
        "indexName":"qp_np_1",
        "bucket":"default","scope":"_default","collection":"qpgate",
        "status":"Scheduled for Creation",
        "hosts":["172.17.0.3:8091"],
        "partitionMap":null,
        "alternateShardIds":null,
        "secExprs":["`n`","`grp`"],
        "where":"(`grp` = 1)"
    }]}"#;

    let parsed = listing(scheduled);
    let status = &parsed[0];
    assert!(status.partition_map.is_empty());
    assert!(!status.is_ready(), "{}", status.status);
    assert_eq!(status.hosts, ["172.17.0.3:8091"]);
}


#[test]
fn a_declared_count_survives_the_spacing_of_its_clause() {
    let mut ix = parse()[0].clone();
    ix.definition = "WITH { \"num_partition\" :\t 16, \"defer_build\":true }".to_string();
    assert_eq!(ix.declared_partitions(), Some(16));
    ix.definition = "WITH { \"num_partition\":0 }".to_string();
    assert_eq!(ix.declared_partitions(), None);
    ix.definition = "WITH { \"num_partition\":99999999999 }".to_string();
    assert_eq!(ix.declared_partitions(), None);
}

#[test]
fn the_listing_is_asked_for_under_its_path() {
    assert_eq!(
        index_status_url("http://10.0.0.1:9102", true),
        "http://10.0.0.1:9102/getIndexStatus?getAll=true"
    );
    assert_eq!(
        index_status_url("http://10.0.0.1:9102", false),
        "http://10.0.0.1:9102/getIndexStatus"
    );
}

#[test]
fn a_refused_listing_is_classified_like_any_other_refusal() {
    assert!(check_index_status(200, b"{}").is_ok());
    let err = check_index_status(404, b"Index Not Found").expect_err("refused");
    assert!(err.source().is_none());
    let ErrorKind::Server(server) = err.kind() else {
        panic!("expected a server error, got {err:?}");
    };
    assert_eq!(
        server.raw(),
        "getIndexStatus: 404 Not Found: Index Not Found"
    );
    assert_eq!(server.metrics_name(), "indexerx.IndexNotFound");
    let err = check_index_status(500, &[b'x', 0xff]).expect_err("refused");
    let ErrorKind::Server(server) = err.kind() else {
        panic!("expected a server error, got {err:?}");
    };
    assert_eq!(
        server.raw(),
        "getIndexStatus: 500 Internal Server Error: x\u{fffd}"
    );
    let err = refuse_index_status("503 Service Unavailable", "later");
    assert_eq!(
        err.message(),
        "indexerx server error: getIndexStatus: 503 Service Unavailable: later"
    );
}

#[test]
fn an_unreadable_listing_says_what_the_parser_said() {
    assert_eq!(
        unreadable_index_status("expected value at line 1").kind(),
        &ErrorKind::Decoding {
            msg: "getIndexStatus returned unreadable JSON: expected value at line 1".to_string()
        }
    );
}

#[test]
fn two_rows_are_equal_however_their_hosts_are_listed() {
    let mut one = StringMap::new();
    one.insert("a:8091".to_string(), vec![1u64, 2]);
    one.insert("b:8091".to_string(), vec![3]);
    let mut other = StringMap::new();
    other.insert("b:8091".to_string(), vec![3u64]);
    other.insert("a:8091".to_string(), vec![1, 2]);
    assert_eq!(one, other);
    assert_eq!(one.clone(), other);
    other.insert("a:8091".to_string(), vec![1]);
    assert_ne!(one, other, "a host is listed once, and the later list counts");
    assert_eq!(other.len(), 2);
    other.remove("a:8091");
    assert_ne!(one, other);
}
