//! Cluster configs as nodes publish them, what the components are told of them,
//! and where scans are routed.
use couchbase_core::address::Address;
use couchbase_core::authenticator::{Authenticator, PasswordAuthenticator, TlsConfig};
use couchbase_core::componentconfigs::{AgentComponentConfigs, NetworkAndCanonicalEndpoint};
use couchbase_core::configparser::{
    ConfigParser, TerseConfig, TerseExtNodeAltAddresses, TerseExtNodeConfig, TerseExtNodePorts,
    TerseNodeConfig, VBucketServerMap,
};
use couchbase_core::error::{Error, ErrorKind};
use couchbase_core::indexerx::error::{Error as IndexerError, ServerError};
use couchbase_core::indexerx::status::IndexStatus;
use couchbase_core::indexrouter::{
    worth_refreshing, IndexRef, IndexRouter, NodeMap, Route, RouteError,
};
use couchbase_core::parsedconfig::{ParsedConfig, ParsedConfigBucketFeature};
use couchbase_core::string_map::StringMap;
use serde_json::Value;

/// Captured from `/pools/default/b/default` on an 8.0.3 cluster: a
/// data/index/query node and a search-only node.
const SAMPLE: &str = r#"{
      "rev": 13298683,
      "revEpoch": 1,
      "name": "default",
      "nodeLocator": "vbucket",
      "uuid": "8857a7b9c24e24eba57ab0a94aea7a6e",
      "bucketCapabilities": ["collections", "rangeScan"],
      "nodesExt": [
        {
          "nodeUUID": "ad7d168ff6c4513a7538d670611260dd",
          "services": {
            "capi": 8092,
            "capiSSL": 18092,
            "indexAdmin": 9100,
            "indexHttp": 9102,
            "indexHttps": 19102,
            "indexScan": 9101,
            "indexStreamCatchup": 9104,
            "indexStreamInit": 9103,
            "indexStreamMaint": 9105,
            "kv": 11210,
            "kvSSL": 11207,
            "mgmt": 8091,
            "mgmtSSL": 18091,
            "n1ql": 8093,
            "n1qlSSL": 18093,
            "projector": 9999
          },
          "thisNode": true,
          "hostname": "192.168.107.128",
          "serverGroup": "Group 1"
        },
        {
          "nodeUUID": "e71ce1ef15b7cdd2324c7e75678d854c",
          "services": {
            "fts": 8094,
            "ftsGRPC": 9130,
            "ftsGRPCSSL": 19130,
            "ftsSSL": 18094,
            "mgmt": 8091,
            "mgmtSSL": 18091
          },
          "hostname": "192.168.107.131",
          "serverGroup": "Group 1"
        }
      ],
      "clusterCapabilitiesVer": [1, 0],
      "clusterCapabilities": { "search": ["vectorSearch", "scopedSearchIndex"] },
      "clusterUUID": "a3a12a23906a89f44bd3b150b2a647b5",
      "clusterName": "test-cluster",
      "vBucketServerMap": {
        "hashAlgorithm": "CRC",
        "numReplicas": 1,
        "serverList": ["192.168.107.128:11210"],
        "vBucketMap": [[0, -1], [0, -1]]
      },
      "nodes": [{ "hostname": "192.168.107.128:8091", "ports": { "direct": 11210 } }]
    }"#;

fn text(v: &Value, key: &str) -> Option<String> {
    v.get(key).and_then(Value::as_str).map(str::to_string)
}

fn port(v: &Value, key: &str) -> Option<u16> {
    v.get(key).and_then(Value::as_u64).map(|n| n as u16)
}

fn ports(v: &Value) -> TerseExtNodePorts {
    TerseExtNodePorts {
        kv: port(v, "kv"),
        kv_ssl: port(v, "kvSSL"),
        mgmt: port(v, "mgmt"),
        mgmt_ssl: port(v, "mgmtSSL"),
        n1ql: port(v, "n1ql"),
        n1ql_ssl: port(v, "n1qlSSL"),
        fts: port(v, "fts"),
        fts_ssl: port(v, "ftsSSL"),
        cbas: port(v, "cbas"),
        cbas_ssl: port(v, "cbasSSL"),
        gsi: port(v, "indexHttp"),
        gsi_ssl: port(v, "indexHttps"),
        index_scan: port(v, "indexScan"),
    }
}

fn feature(name: &str) -> ParsedConfigBucketFeature {
    match name {
        "rangeScan" => ParsedConfigBucketFeature::RangeScan,
        _ => ParsedConfigBucketFeature::Other,
    }
}

fn terse(source: &str) -> TerseConfig {
    let v: Value = serde_json::from_str(source).expect("the capture is JSON");
    let mut cluster_capabilities = StringMap::new();
    for (name, list) in v["clusterCapabilities"].as_object().expect("capabilities") {
        let names = list
            .as_array()
            .expect("a list")
            .iter()
            .map(|n| n.as_str().expect("a name").to_string())
            .collect();
        cluster_capabilities.insert(name.clone(), names);
    }
    let map = &v["vBucketServerMap"];
    TerseConfig {
        rev: v["rev"].as_i64().expect("a revision"),
        rev_epoch: v["revEpoch"].as_i64(),
        name: text(&v, "name"),
        node_locator: text(&v, "nodeLocator"),
        uuid: text(&v, "uuid"),
        bucket_capabilities: v["bucketCapabilities"].as_array().map(|caps| {
            caps.iter()
                .map(|c| feature(c.as_str().expect("a capability")))
                .collect()
        }),
        cluster_capabilities,
        vbucket_server_map: Some(VBucketServerMap {
            num_replicas: map["numReplicas"].as_u64().expect("a number") as usize,
            vbucket_map: map["vBucketMap"]
                .as_array()
                .expect("a map")
                .iter()
                .map(|row| {
                    row.as_array()
                        .expect("a row")
                        .iter()
                        .map(|n| n.as_i64().expect("a server") as i16)
                        .collect()
                })
                .collect(),
        }),
        nodes: v["nodes"].as_array().map(|nodes| {
            nodes
                .iter()
                .map(|n| TerseNodeConfig {
                    hostname: text(n, "hostname"),
                })
                .collect()
        }),
        nodes_ext: v["nodesExt"]
            .as_array()
            .expect("nodes")
            .iter()
            .map(|n| TerseExtNodeConfig {
                services: n.get("services").map(ports),
                hostname: text(n, "hostname"),
                alternate_addresses: StringMap::<TerseExtNodeAltAddresses>::new(),
            })
            .collect(),
        cluster_name: text(&v, "clusterName"),
        cluster_uuid: text(&v, "clusterUUID"),
    }
}

fn parse_sample() -> ParsedConfig {
    ConfigParser::parse_terse_config(terse(SAMPLE), "127.0.0.1")
        .expect("the capture is a valid config")
}

#[test]
fn both_index_ports_are_read_and_are_not_the_same_port() {
    let config = parse_sample();
    let ports = &config.nodes[0].addresses.non_ssl_ports;

    assert_eq!(ports.index_scan, Some(9101));
    assert_eq!(ports.index_http, Some(9102));
}

#[test]
fn the_ssl_set_takes_index_https_but_repeats_the_scan_port() {
    let config = parse_sample();
    let ssl = &config.nodes[0].addresses.ssl_ports;

    assert_eq!(ssl.index_http, Some(19102));
    assert_eq!(ssl.index_scan, Some(9101));
    assert_eq!(
        ssl.index_scan,
        config.nodes[0].addresses.non_ssl_ports.index_scan
    );
}

#[test]
fn a_node_running_no_indexer_has_no_index_ports() {
    let config = parse_sample();
    let node = &config.nodes[1];

    assert_eq!(node.addresses.hostname, "192.168.107.131");
    assert_eq!(node.addresses.non_ssl_ports.index_scan, None);
    assert_eq!(node.addresses.non_ssl_ports.index_http, None);
    assert_eq!(node.addresses.ssl_ports.index_scan, None);
    assert_eq!(node.addresses.ssl_ports.index_http, None);
    assert_eq!(node.addresses.non_ssl_ports.search, Some(8094));
}

#[test]
fn the_index_ports_survive_the_network_type_projection() {
    let config = parse_sample();
    let network = config.addresses_group_for_network_type("default");

    assert_eq!(network.nodes[0].non_ssl_ports.index_scan, Some(9101));
    assert_eq!(network.nodes[0].ssl_ports.index_http, Some(19102));
    assert_eq!(
        network.nodes[0]
            .canonical_node_info
            .non_ssl_ports
            .index_scan,
        Some(9101)
    );
}

fn configs(tls: Option<TlsConfig>) -> AgentComponentConfigs {
    AgentComponentConfigs::gen_from_config(
        &parse_sample(),
        "default",
        tls,
        None,
        Authenticator::PasswordAuthenticator(PasswordAuthenticator {
            username: "u".to_string(),
            password: "p".to_string(),
        }),
    )
}

fn tls_config() -> TlsConfig {
    TlsConfig { id: 1 }
}

fn values(
    endpoints: &StringMap<NetworkAndCanonicalEndpoint>,
) -> Vec<&NetworkAndCanonicalEndpoint> {
    endpoints.entries().iter().map(|(_, e)| e).collect()
}

#[test]
fn the_index_rest_endpoint_is_listed_for_every_node_that_runs_an_indexer() {
    let endpoints = configs(None).index_config.endpoints;

    assert_eq!(endpoints.len(), 1);
    assert!(
        values(&endpoints).iter().all(|e| e.network_endpoint == "http://192.168.107.128:9102"),
        "{:?}",
        values(&endpoints).iter().map(|e| &e.network_endpoint)
            .collect::<Vec<_>>()
    );
}

#[test]
fn the_tls_arm_takes_index_https_rather_than_the_plain_rest_port() {
    let endpoints = configs(Some(tls_config())).index_config.endpoints;

    assert_eq!(endpoints.len(), 1);
    assert!(values(&endpoints).iter().all(|e| e.network_endpoint == "https://192.168.107.128:19102"));
}

#[test]
fn the_node_map_is_the_queryport_and_is_built_from_the_same_config() {
    let nodes = configs(None).index_config.nodes;

    assert_eq!(nodes.len(), 1);
    assert_eq!(
        nodes.scan_address("192.168.107.128:8091").map(|a| a.port),
        Some(9101)
    );
}

/// One status row: one host, and only the partitions it holds.
fn row(
    name: &str,
    defn_id: u64,
    replica: u32,
    host: &str,
    partitions: &[u64],
    partitioned: bool,
) -> IndexStatus {
    IndexStatus {
        defn_id,
        inst_id: defn_id + u64::from(replica),
        index_name: name.to_string(),
        bucket: "default".to_string(),
        scope: "_default".to_string(),
        collection: "things".to_string(),
        status: "Ready".to_string(),
        is_primary: false,
        partitioned,
        num_partition: partitions.len() as u32,
        definition: String::new(),
        partition_map: {
            let mut map = StringMap::new();
            map.insert(host.to_string(), partitions.to_vec());
            map
        },
        hosts: Vec::new(),
        num_replica: 0,
        replica_id: replica,
        sec_exprs: Vec::new(),
        where_expr: None,
    }
}

/// A whole index on one host, which is every index that is not partitioned.
fn status(name: &str, defn_id: u64, replica: u32, host: &str) -> IndexStatus {
    row(name, defn_id, replica, host, &[0], false)
}

/// A partitioned index, as its rows: `(host, its partitions)`, plus what the
/// DDL declared.
fn partitioned(
    name: &str,
    defn_id: u64,
    declared: Option<u32>,
    hosts: &[(&str, &[u64])],
) -> Vec<IndexStatus> {
    hosts
        .iter()
        .map(|(host, parts)| {
            let mut s = row(name, defn_id, 0, host, parts, true);
            s.definition = match declared {
                Some(n) => format!(
                    "CREATE INDEX `{name}` ON `default`.`_default`.`things`(`n`) \
                     PARTITION BY hash((meta().`id`)) WITH {{  \"num_partition\":{n} }}"
                ),
                None => format!(
                    "CREATE INDEX `{name}` ON `default`.`_default`.`things`(`n`) \
                     PARTITION BY hash((meta().`id`))"
                ),
            };
            s
        })
        .collect()
}

fn building(name: &str, defn_id: u64) -> IndexStatus {
    let mut s = status(name, defn_id, 0, "10.0.0.1:8091");
    s.status = "Building".to_string();
    s
}

fn nodes() -> NodeMap {
    NodeMap::from_nodes(vec![
        (
            "10.0.0.1".to_string(),
            Some(8091),
            "10.0.0.1".to_string(),
            Some(9101),
        ),
        (
            "10.0.0.2".to_string(),
            Some(8091),
            "10.0.0.2".to_string(),
            Some(9101),
        ),
    ])
}

fn scan_at(host: &str) -> Address {
    Address {
        host: host.to_string(),
        port: 9101,
    }
}

fn router(indexes: Vec<IndexStatus>) -> IndexRouter {
    let mut router = IndexRouter::new(nodes());
    router.set_topology(indexes, nodes());
    router
}

fn a_ref(name: &str) -> IndexRef {
    IndexRef::new("default", "_default", "things", name)
}

#[test]
fn a_node_map_translates_mgmt_to_the_scan_port() {
    assert_eq!(
        nodes().scan_address("10.0.0.1:8091"),
        Some(&scan_at("10.0.0.1"))
    );
    assert_eq!(nodes().scan_address("10.0.0.9:8091"), None);
}

#[test]
fn a_node_without_the_index_service_is_absent_rather_than_dialled() {
    let map = NodeMap::from_nodes(vec![(
        "10.0.0.3".to_string(),
        Some(8091),
        "10.0.0.3".to_string(),
        None,
    )]);
    assert!(map.is_empty());
    assert_eq!(map.scan_address("10.0.0.3:8091"), None);
}

#[test]
fn a_node_map_is_built_from_a_real_cluster_config() {
    let config = parse_sample();
    let map = NodeMap::from_config(&config, "default");

    assert_eq!(map.len(), 1, "one of the two nodes runs an indexer");
    assert_eq!(
        map.scan_address("192.168.107.128:8091"),
        Some(&scan_at("192.168.107.128"))
    );
    assert_eq!(map.scan_address("192.168.107.131:8091"), None);
}

#[test]
fn the_scan_port_is_the_same_in_both_sets_so_tls_is_not_read_off_it() {
    let config = parse_sample();
    let node = &config.addresses_group_for_network_type("default").nodes[0];

    assert_eq!(node.non_ssl_ports.index_scan, node.ssl_ports.index_scan);
    assert_eq!(node.non_ssl_ports.index_scan, Some(9101));
}

/// The one route a non-partitioned index has.
fn one(router: &mut IndexRouter, name: &str) -> Result<Route, RouteError> {
    let mut routes = router.routes(&a_ref(name))?;
    assert_eq!(routes.len(), 1, "this index is on one host");
    Ok(routes.remove(0))
}

#[test]
fn routing_finds_the_instance_and_its_queryport() {
    let mut router = router(vec![status("ix_a", 7, 0, "10.0.0.2:8091")]);

    let route = one(&mut router, "ix_a").expect("a route");
    assert_eq!(route.defn_id, 7);
    assert_eq!(route.scan_address, scan_at("10.0.0.2"));
    assert_eq!(route.partitions, vec![0]);
}

#[test]
fn replicas_are_used_in_turn() {
    let mut router = router(vec![
        status("ix_a", 7, 0, "10.0.0.1:8091"),
        status("ix_a", 7, 1, "10.0.0.2:8091"),
    ]);

    let mut seen: Vec<Address> = (0..4)
        .map(|_| one(&mut router, "ix_a").expect("a route").scan_address)
        .collect();
    seen.sort_by_key(|a| a.message());
    seen.dedup();

    assert_eq!(
        seen.len(),
        2,
        "four routes over two replicas should use both"
    );
}

#[test]
fn a_building_index_is_not_ready_rather_than_missing() {
    let mut router = router(vec![building("ix_a", 7)]);

    assert_eq!(
        router.routes(&a_ref("ix_a")),
        Err(RouteError::IndexNotReady(a_ref("ix_a")))
    );
}

#[test]
fn an_unknown_index_is_reported_as_missing() {
    let mut router = router(vec![status("ix_a", 7, 0, "10.0.0.1:8091")]);

    assert_eq!(
        router.routes(&a_ref("ix_b")),
        Err(RouteError::IndexNotFound(a_ref("ix_b")))
    );
}

#[test]
fn the_same_name_in_another_keyspace_is_a_different_index() {
    let mut router = router(vec![status("ix_a", 7, 0, "10.0.0.1:8091")]);

    let elsewhere = IndexRef::new("default", "_default", "others", "ix_a");
    assert_eq!(
        router.routes(&elsewhere),
        Err(RouteError::IndexNotFound(elsewhere.clone()))
    );
}

#[test]
fn a_partitioned_index_routes_to_every_host_that_holds_part_of_it() {
    let mut router = router(partitioned(
        "ix_a",
        7,
        Some(4),
        &[("10.0.0.2:8091", &[3, 4]), ("10.0.0.1:8091", &[1, 2])],
    ));

    let routes = router.routes(&a_ref("ix_a")).expect("routes");

    assert_eq!(
        routes
            .iter()
            .map(|r| (r.scan_address.clone(), r.partitions.as_slice()))
            .collect::<Vec<_>>(),
        [
            (scan_at("10.0.0.1"), [1, 2].as_slice()),
            (scan_at("10.0.0.2"), [3, 4].as_slice()),
        ]
    );
    assert!(
        routes.iter().all(|r| r.inst_id == routes[0].inst_id),
        "one copy of the index, not a mixture of replicas"
    );
}

#[test]
fn a_host_that_dropped_out_is_refused_rather_than_read_around() {
    let mut router = router(partitioned(
        "ix_a",
        7,
        Some(4),
        &[("10.0.0.1:8091", &[1, 2])],
    ));

    assert_eq!(
        router.routes(&a_ref("ix_a")),
        Err(RouteError::PartitionsMissing {
            index: a_ref("ix_a"),
            held: 2,
            want: 4,
        })
    );
}

#[test]
fn summing_the_rows_is_not_the_check_and_this_is_why() {
    let rows = partitioned("ix_a", 7, Some(4), &[("10.0.0.1:8091", &[1, 2])]);
    assert_eq!(
        rows.iter().map(|r| r.num_partition).sum::<u32>(),
        2,
        "the sum over surviving rows is not the index's partition count"
    );
    assert_eq!(rows[0].declared_partitions(), Some(4));
}

#[test]
fn a_gap_in_the_numbering_is_caught_without_any_declaration() {
    let mut router = router(partitioned(
        "ix_a",
        7,
        None,
        &[("10.0.0.1:8091", &[1, 2]), ("10.0.0.2:8091", &[4])],
    ));

    assert_eq!(
        router.routes(&a_ref("ix_a")),
        Err(RouteError::PartitionsMissing {
            index: a_ref("ix_a"),
            held: 3,
            want: 4,
        })
    );
}

#[test]
fn the_right_number_of_the_wrong_partitions_is_still_refused() {
    let mut router = router(partitioned(
        "ix_a",
        7,
        Some(4),
        &[("10.0.0.1:8091", &[1, 2]), ("10.0.0.2:8091", &[4, 5])],
    ));

    assert_eq!(
        router.routes(&a_ref("ix_a")),
        Err(RouteError::PartitionsMissing {
            index: a_ref("ix_a"),
            held: 4,
            want: 4,
        })
    );
}

#[test]
fn a_complete_set_with_no_declaration_is_routed() {
    let mut router = router(partitioned(
        "ix_a",
        7,
        None,
        &[("10.0.0.1:8091", &[1, 2]), ("10.0.0.2:8091", &[3])],
    ));

    assert_eq!(router.routes(&a_ref("ix_a")).expect("routes").len(), 2);
}

#[test]
fn two_hosts_claiming_one_partition_is_refused_rather_than_read_twice() {
    let mut router = router(partitioned(
        "ix_a",
        7,
        Some(2),
        &[("10.0.0.1:8091", &[1, 2]), ("10.0.0.2:8091", &[2])],
    ));

    assert_eq!(
        router.routes(&a_ref("ix_a")),
        Err(RouteError::PartitionClaimedTwice {
            index: a_ref("ix_a"),
            partition: 2,
        })
    );
}

#[test]
fn a_node_the_cluster_config_does_not_know_is_named() {
    let mut router = router(vec![status("ix_a", 7, 0, "10.9.9.9:8091")]);

    assert_eq!(
        router.routes(&a_ref("ix_a")),
        Err(RouteError::UnknownNode("10.9.9.9:8091".to_string()))
    );
}

#[test]
fn a_stale_snapshot_is_not_an_index_that_does_not_exist() {
    let mut router = IndexRouter::new(nodes());

    assert!(router.needs_refresh());
    assert_eq!(router.routes(&a_ref("ix_a")), Err(RouteError::NoTopology));
}

#[test]
fn a_config_that_moved_the_nodes_invalidates_the_index_list() {
    let mut router = router(vec![status("ix_a", 7, 0, "10.0.0.1:8091")]);
    assert!(!router.needs_refresh());

    router.set_nodes(nodes());
    assert!(!router.needs_refresh());
    assert!(router.routes(&a_ref("ix_a")).is_ok());

    router.set_nodes(NodeMap::from_nodes(vec![(
        "10.0.0.1".to_string(),
        Some(8091),
        "10.0.0.1".to_string(),
        Some(9101),
    )]));
    assert!(router.needs_refresh());
}

#[test]
fn every_routing_failure_is_worth_a_refresh_and_the_server_saying_no_is_not() {
    assert!(RouteError::IndexNotFound(a_ref("ix_a")).worth_refreshing());
    assert!(RouteError::IndexNotReady(a_ref("ix_a")).worth_refreshing());
    assert!(RouteError::NoTopology.worth_refreshing());
    assert!(RouteError::UnknownNode("10.9.9.9:8091".to_string()).worth_refreshing());
    assert!(RouteError::PartitionsMissing {
        index: a_ref("ix_a"),
        held: 2,
        want: 4,
    }
    .worth_refreshing());
    assert!(RouteError::PartitionClaimedTwice {
        index: a_ref("ix_a"),
        partition: 2,
    }
    .worth_refreshing());

    assert!(ServerError::classify("Not my partition").is_retryable_after_refresh());
    assert!(!ServerError::classify("Index not found").is_retryable_after_refresh());
    assert!(!ServerError::classify("Index scan timed out").is_retryable_after_refresh());
}

#[test]
fn the_refresh_decision_survives_the_trip_through_the_crate_error() {
    let routing: Error = RouteError::IndexNotFound(a_ref("ix_a")).into();
    assert!(worth_refreshing(&routing));

    let moved: Error = ErrorKind::Indexer(IndexerError::from(
        ServerError::classify("Not my partition for defnId 7"),
    ))
    .into();
    assert!(worth_refreshing(&moved));

    let gone: Error = ErrorKind::Indexer(IndexerError::from(
        ServerError::classify("Index not found"),
    ))
    .into();
    assert!(
        !worth_refreshing(&gone),
        "the server looked up our defnId and it is gone; refreshing changes nothing"
    );

    assert!(!worth_refreshing(
        &ErrorKind::NoEndpointsAvailable.into()
    ));
}

#[test]
fn a_wrapped_condition_is_still_recognised() {
    let wrapped = "from 10.0.0.1:9101: index not found, NOT MY PARTITION (retry)";
    assert!(ServerError::classify(wrapped).is_retryable_after_refresh());
    assert!(matches!(
        ServerError::classify("scan failed: Index Not Found for defnId 7"),
        ServerError::IndexNotFound(_)
    ));
}

#[test]
fn a_map_without_nodes_is_the_default() {
    assert_eq!(NodeMap::default(), NodeMap::from_nodes(Vec::new()));
    assert!(NodeMap::default().is_empty());
}

#[test]
fn every_copy_is_read_before_one_is_read_again() {
    let mut router = router(vec![
        status("ix_a", 7, 0, "10.0.0.1:8091"),
        status("ix_a", 7, 1, "10.0.0.2:8091"),
    ]);
    let used: Vec<u64> = (0..3)
        .map(|_| one(&mut router, "ix_a").expect("a route").inst_id)
        .collect();
    assert_ne!(used[0], used[1]);
    assert_eq!(used[0], used[2]);
}
