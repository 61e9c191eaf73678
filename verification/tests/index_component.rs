//! When the index topology is re-read, and what each host is asked.
use std::time::Duration;

use couchbase_core::address::Address;
use couchbase_core::authenticator::{Auth, Authenticator, PasswordAuthenticator, TlsConfig};
use couchbase_core::componentconfigs::IndexComponentConfig;
use couchbase_core::error::{Error, ErrorKind};
use couchbase_core::indexcomponent::{
    consistency_from, scan_options, scanned_copy, IndexComponent, IndexScan, IndexScanConsistency,
    IndexScanOptions, Refresh, RefreshStep, ScanStep,
};
use couchbase_core::indexerx::error::{Error as IndexerError, ServerError};
use couchbase_core::indexerx::proto::{
    Consistency, DataEncoding, Projection, Request, ScanOptions, ScanVectorEntry,
};
use couchbase_core::indexerx::span::{Filter, Scan};
use couchbase_core::indexerx::status::IndexStatus;
use couchbase_core::indexrouter::{NodeMap, Route};
use couchbase_core::mutationtoken::MutationToken;
use couchbase_core::service_type::ServiceType;
use couchbase_core::string_map::StringMap;

#[test]
fn session_and_any_carry_no_vector() {
    assert_eq!(
        consistency_from(&IndexScanConsistency::Session).expect("session"),
        Consistency::Session
    );
    assert_eq!(
        consistency_from(&IndexScanConsistency::Any).expect("any"),
        Consistency::Any
    );
}

#[test]
fn at_plus_keeps_the_latest_mutation_for_each_vbucket() {
    let consistency = consistency_from(&IndexScanConsistency::AtPlus(vec![
        MutationToken::new(7, 0xaaaa, 12),
        MutationToken::new(3, 0xbbbb, 99),
        MutationToken::new(7, 0xaaaa, 40),
        MutationToken::new(7, 0xaaaa, 5),
    ]))
    .expect("a vector");

    let Consistency::Query(vector) = consistency else {
        panic!("at_plus is a Query consistency");
    };
    assert_eq!(
        vector.entries(),
        [
            ScanVectorEntry {
                vbucket: 3,
                seqno: 99,
                vbuuid: 0xbbbb
            },
            ScanVectorEntry {
                vbucket: 7,
                seqno: 40,
                vbuuid: 0xaaaa
            },
        ]
    );
}

#[test]
fn a_token_with_no_vbuuid_is_refused_rather_than_silently_ignored() {
    let err = consistency_from(&IndexScanConsistency::AtPlus(vec![MutationToken::new(
        1, 0, 10,
    )]))
    .expect_err("a zero vbuuid is not a scan vector");

    assert!(matches!(
        err.kind(),
        ErrorKind::InvalidArgument { arg: Some(arg), .. } if arg == "consistency"
    ));
}

#[test]
fn the_first_of_two_equal_mutations_is_kept() {
    let Ok(Consistency::Query(vector)) = consistency_from(&IndexScanConsistency::AtPlus(vec![
        MutationToken::new(7, 1, 12),
        MutationToken::new(7, 0, 12),
    ])) else {
        panic!("a vector");
    };
    assert_eq!(vector.entries()[0].vbuuid, 1);
}

fn nodes(hosts: &[&str]) -> NodeMap {
    NodeMap::from_nodes(
        hosts
            .iter()
            .map(|h| (h.to_string(), Some(8091), h.to_string(), Some(9101)))
            .collect(),
    )
}

fn config(hosts: &[&str], tls_config: Option<TlsConfig>) -> IndexComponentConfig {
    IndexComponentConfig {
        endpoints: StringMap::new(),
        nodes: nodes(hosts),
        authenticator: Authenticator::PasswordAuthenticator(PasswordAuthenticator {
            username: "u".to_string(),
            password: "p".to_string(),
        }),
        tls_config,
    }
}

fn component() -> IndexComponent<u8> {
    IndexComponent::new(config(&["10.0.0.1"], None), "id".to_string(), Duration::from_secs(5))
}

fn options() -> IndexScanOptions {
    IndexScanOptions {
        scope_name: "_default".to_string(),
        collection_name: "things".to_string(),
        index_name: "ix_a".to_string(),
        consistency: IndexScanConsistency::Session,
        request_id: None,
        scans: vec![Scan::filtered(vec![Filter::eq(b"3".to_vec())])],
        projection: Some(Projection::keys_and(vec![1])),
        distinct: true,
        offset: 2,
        limit: None,
        data_encoding: DataEncoding::Json,
        on_behalf_of: Some("alice".to_string()),
        timeout: Some(Duration::from_micros(1_500)),
    }
}

fn listing(host: &str) -> Vec<IndexStatus> {
    vec![IndexStatus {
        defn_id: 7,
        inst_id: 8,
        index_name: "ix_a".to_string(),
        bucket: "default".to_string(),
        scope: "_default".to_string(),
        collection: "things".to_string(),
        status: "Ready".to_string(),
        is_primary: false,
        partitioned: false,
        num_partition: 1,
        definition: String::new(),
        partition_map: {
            let mut map = StringMap::new();
            map.insert(host.to_string(), vec![0]);
            map
        },
        hosts: Vec::new(),
        num_replica: 0,
        replica_id: 3,
        sec_exprs: Vec::new(),
        where_expr: None,
    }]
}

fn refresh(component: &mut IndexComponent<u8>, host: &str) {
    let generation = component.generation();
    let refresh = component
        .begin_refresh(generation)
        .expect("nobody else refreshed");
    assert!(matches!(
        refresh.answered(component, None, Ok(listing(host))),
        RefreshStep::Done
    ));
}

fn moved() -> Error {
    Error::from(ErrorKind::Indexer(IndexerError::from(
        ServerError::classify("Not my partition"),
    )))
}

#[test]
fn the_first_scan_reads_the_topology_first() {
    let mut component = component();
    let Ok((mut scan, step)) =
        IndexScan::begin(&mut component, "default", &options())
    else {
        panic!("the options are fine");
    };
    assert!(matches!(step, ScanStep::Refresh));
    refresh(&mut component, "10.0.0.1:8091");
    let ScanStep::Open(routes) = scan.refreshed(&mut component, Ok(())) else {
        panic!("the index is listed");
    };
    assert_eq!(scanned_copy(&routes), (7, 8, 3));

    let asked = scan.request(&routes[0], &options());
    assert_eq!(asked.request_id.len(), 36, "a fresh name");
    let begun = IndexScan::begin_as(&mut component, "default", &options(), "given".to_string());
    let Ok((named, _)) = begun else {
        panic!("the options are fine");
    };
    assert_eq!(named.request(&routes[0], &options()).request_id, "given");
    assert_eq!(asked.defn_id, 7);
    assert!(asked.partitions.is_empty(), "no partition in particular");
    assert_eq!(asked.limit, i64::MAX);
    assert_eq!(asked.offset, 2);
    assert_eq!(asked.user.as_deref(), Some("alice"));
    assert_eq!(asked.timeout, Some(Duration::from_micros(1_500)));
    assert_eq!(asked.scans, options().scans);
    assert_eq!(asked.projection, options().projection);
    assert!(asked.distinct);
}

#[test]
fn a_scan_is_retried_once_and_only_once() {
    let mut component = component();
    refresh(&mut component, "10.0.0.1:8091");
    let mut opts = options();
    opts.request_id = Some("mine".to_string());
    let Ok((mut scan, ScanStep::Open(routes))) =
        IndexScan::begin(&mut component, "default", &opts)
    else {
        panic!("the index is listed");
    };
    assert_eq!(scan.request(&routes[0], &opts).request_id, "mine");
    assert!(matches!(scan.not_opened(moved()), ScanStep::Refresh));
    assert!(matches!(
        scan.refreshed(&mut component, Ok(())),
        ScanStep::Open(_)
    ));
    assert!(matches!(scan.not_opened(moved()), ScanStep::Fail(_)));
}

#[test]
fn an_error_that_no_topology_fixes_is_not_retried() {
    let mut component = component();
    refresh(&mut component, "10.0.0.1:8091");
    let Ok((mut scan, ScanStep::Open(_))) =
        IndexScan::begin(&mut component, "default", &options())
    else {
        panic!("the index is listed");
    };
    let gone = Error::from(ErrorKind::Indexer(IndexerError::from(
        ServerError::classify("Index not found"),
    )));
    assert!(matches!(scan.not_opened(gone), ScanStep::Fail(_)));
}

#[test]
fn an_index_that_a_refresh_does_not_bring_fails_the_scan() {
    let mut component = component();
    refresh(&mut component, "10.9.9.9:8091");
    let Ok((mut scan, step)) =
        IndexScan::begin(&mut component, "default", &options())
    else {
        panic!("the options are fine");
    };
    assert!(matches!(step, ScanStep::Refresh), "the node is unknown");
    match scan.refreshed(&mut component, Ok(())) {
        ScanStep::Fail(e) => assert!(matches!(e.kind(), ErrorKind::IndexRouting(_))),
        _ => panic!("the node is still unknown"),
    }
    match scan.refreshed(&mut component, Err(Error::new_message_error("down"))) {
        ScanStep::Fail(e) => assert_eq!(e.message(), "down"),
        _ => panic!("the refresh failed"),
    }
}

#[test]
fn one_refresh_serves_everybody_who_waited_for_it() {
    let mut component = component();
    let before = component.generation();
    refresh(&mut component, "10.0.0.1:8091");
    assert!(component.begin_refresh(before).is_none());
}

#[test]
fn a_refresh_moves_on_to_another_endpoint() {
    let mut component = component();
    let down = || IndexerError::new_decoding_error("down");
    let begin = |component: &IndexComponent<u8>| -> Refresh {
        component
            .begin_refresh(component.generation())
            .expect("nobody else refreshed")
    };

    let first = begin(&component);
    let RefreshStep::TryAnother(next) =
        first.answered(&mut component, Some("ep-1".to_string()), Err(down()))
    else {
        panic!("there may be others");
    };
    assert_eq!(next.tried(), &["ep-1"]);
    let err = next.nobody_left();
    assert!(matches!(
        err.kind(),
        ErrorKind::ServiceNotAvailable {
            service: ServiceType::INDEX
        }
    ));

    let only = begin(&component);
    match only.answered(&mut component, None, Err(down())) {
        RefreshStep::Failed(e) => assert!(matches!(e.kind(), ErrorKind::Indexer(_))),
        _ => panic!("there is nothing to move on to"),
    }
}

#[test]
fn a_config_that_moves_the_nodes_asks_for_a_refresh() {
    let mut component = component();
    refresh(&mut component, "10.0.0.1:8091");
    component.add_pool(
        Address {
            host: "10.0.0.1".to_string(),
            port: 9101,
        },
        4,
    );
    component.reconfigure(config(&["10.0.0.1"], None));
    let begun = IndexScan::begin(&mut component, "default", &options());
    assert!(matches!(begun, Ok((_, ScanStep::Open(_)))));
    component.reconfigure(config(&["10.0.0.1", "10.0.0.2"], None));
    let begun = IndexScan::begin(&mut component, "default", &options());
    assert!(matches!(begun, Ok((_, ScanStep::Refresh))));
    assert_eq!(component.node_map().len(), 2);
    assert_eq!(component.drain_pools().len(), 1, "no config drains a pool");
}

#[test]
fn a_pool_serves_one_address() {
    let mut component = component();
    let address = |port| Address {
        host: "10.0.0.1".to_string(),
        port,
    };
    assert!(component.pool_for(&address(9101)).is_none());
    component.add_pool(address(9101), 1);
    component.add_pool(address(9102), 2);
    assert_eq!(component.pool_for(&address(9102)), Some(&2));
    assert_eq!(component.pool_for(&address(9101)), Some(&1));
    let drained = component.drain_pools();
    assert_eq!(drained.len(), 2);
    assert!(component.pool_for(&address(9101)).is_none());
}

#[test]
fn a_queryport_is_dialled_with_a_password_and_nothing_else() {
    let component: IndexComponent<u8> = IndexComponent::new(
        config(&["10.0.0.1"], Some(TlsConfig { id: 4 })),
        "id".to_string(),
        Duration::from_secs(5),
    );
    let opts = component
        .connect_options(Auth::BasicAuth {
            username: "u".to_string(),
            password: "p".to_string(),
        })
        .expect("a password");
    assert_eq!((opts.username.as_str(), opts.password.as_str()), ("u", "p"));
    assert_eq!(opts.tls_config, Some(TlsConfig { id: 4 }));
    assert_eq!(opts.tcp_keep_alive_time, Duration::from_secs(5));
    assert_eq!(opts.connect_timeout, Duration::from_secs(10));

    let err = component
        .connect_options(Auth::BearerAuth {
            token: "t".to_string(),
        })
        .expect_err("a token cannot be presented");
    assert!(matches!(
        err.kind(),
        ErrorKind::FeatureNotAvailable { feature, .. } if feature == "index scan"
    ));
}

#[test]
fn a_partitioned_host_is_asked_for_its_partitions() {
    let route = Route {
        defn_id: 7,
        inst_id: 8,
        replica_id: 0,
        scan_address: Address {
            host: "10.0.0.1".to_string(),
            port: 9101,
        },
        partitioned: true,
        partitions: vec![1, 2],
    };
    let mut opts = options();
    opts.limit = Some(10);
    let asked = scan_options(&route, &opts, &Consistency::Any, "r");
    assert_eq!(asked.partitions, vec![1, 2]);
    assert_eq!(asked.limit, 10);
    assert_eq!(asked.consistency, Consistency::Any);
}

#[test]
fn a_scan_takes_one_turn_of_the_replicas() {
    let mut component = component();
    let generation = component.generation();
    let refresh = component
        .begin_refresh(generation)
        .expect("nobody else refreshed");
    let mut replicas = listing("10.0.0.1:8091");
    replicas.extend(listing("10.0.0.1:8091"));
    replicas[1].inst_id = 9;
    assert!(matches!(
        refresh.answered(&mut component, None, Ok(replicas)),
        RefreshStep::Done
    ));
    let generation = component.generation();
    let copies: Vec<u64> = (0..3)
        .map(|_| {
            match IndexScan::begin(&mut component, "default", &options()) {
                Ok((_, ScanStep::Open(routes))) => scanned_copy(&routes).1,
                _ => panic!("the index is listed"),
            }
        })
        .collect();
    assert_eq!(copies, [8, 9, 8]);
    assert_eq!(component.generation(), generation);
}

#[test]
fn a_budget_is_sent_in_whole_milliseconds() {
    let opts = ScanOptions {
        timeout: Some(Duration::from_micros(1_500)),
        ..ScanOptions::new(7, "req-1")
    };
    let request = Request::scan(opts);
    let sent = request.payload().scan_request.as_ref().expect("a scan");
    assert_eq!(sent.req_timeout, Some(1));
}
