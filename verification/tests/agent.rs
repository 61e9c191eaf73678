//! Starting an agent, and what it does with configs.
use std::time::Duration;

use couchbase_core::address::Address;
use couchbase_core::agent::{
    bootstrap_auth, bucket_feature_check, endpoints_for, first_client_options,
    gen_first_http_endpoints, gen_first_kv_client_configs, manager_options, mechanism_warning,
    named_network, pushed_revision, readable_config, user_agent, AgentInner, AgentOptions, AgentState,
    AuthMechanism, Bootstrap, BucketFeature, HttpAttempt, HttpConfig, HttpConfigRequest, KvAttempt,
    KvConfig, MechanismWarning, Next, ReconfigureAgentOptions, SeedConfig, Serves, ServiceEndpoints, UpdateStep,
};
use couchbase_core::authenticator::{
    Auth, Authenticator, CertificateAuthenticator, JwtAuthenticator, PasswordAuthenticator,
    TlsConfig,
};
use couchbase_core::configparser::{
    TerseConfig, TerseExtNodeConfig, TerseNodeConfig, VBucketServerMap,
};
use couchbase_core::error::{Error, ErrorKind, MemdxError};
use couchbase_core::memdx;
use couchbase_core::memdx::OpCode;
use couchbase_core::parsedconfig::{
    bucket_feature, BucketType, ParsedConfig, ParsedConfigBucket, ParsedConfigBucketFeature,
};
use couchbase_core::service_type::ServiceType;
use couchbase_core::string_map::StringMap;

#[test]
fn a_revision_orders_epoch_before_id() {
    assert!((1i64, 5i64) < (2i64, 1i64));
}

#[test]
fn an_unknown_service_is_no_endpoints_rather_than_an_error() {
    let endpoints = endpoints_for(&ServiceEndpoints::default(), ServiceType::INDEX);
    assert!(endpoints.is_empty());
}

#[test]
fn a_service_the_cluster_runs_is_the_list_gathered_for_it_and_no_other() {
    let endpoints = ServiceEndpoints {
        mgmt: vec!["http://127.0.0.1:8091".to_string()],
        query: vec!["http://127.0.0.1:8093".to_string()],
        ..ServiceEndpoints::default()
    };

    assert_eq!(
        endpoints_for(&endpoints, ServiceType::MGMT),
        vec!["http://127.0.0.1:8091".to_string()]
    );
    assert!(endpoints_for(&endpoints, ServiceType::SEARCH).is_empty());
}

fn address(port: u16) -> Address {
    Address {
        host: "127.0.0.1".to_string(),
        port,
    }
}

fn password() -> Authenticator {
    Authenticator::PasswordAuthenticator(PasswordAuthenticator {
        username: "user".to_string(),
        password: "pass".to_string(),
    })
}

fn options(surface_bootstrap_errors: bool) -> AgentOptions {
    AgentOptions {
        seed_config: SeedConfig {
            memd_addrs: vec![address(11210)],
            http_addrs: vec![address(8091)],
        },
        authenticator: password(),
        auth_mechanisms: vec![AuthMechanism::ScramSha512],
        tls_config: None,
        bucket_name: Some("travel".to_string()),
        network: None,
        kv_config: KvConfig {
            enable_error_map: true,
            enable_mutation_tokens: false,
            enable_server_durations: true,
            num_connections: 2,
            num_bulk_connections: 5,
            on_demand_connect: false,
            surface_connect_errors: true,
            connect_timeout: Duration::from_secs(10),
            connect_throttle_timeout: Duration::from_secs(5),
        },
        http_config: HttpConfig {
            idle_connection_timeout: Duration::from_secs(1),
            max_idle_connections_per_host: Some(4),
        },
        tcp_keep_alive_time: None,
        disable_decompression: false,
        surface_bootstrap_errors,
    }
}

fn search(opts: &AgentOptions) -> Bootstrap {
    let state = AgentState::new(opts);
    Bootstrap::new(
        gen_first_kv_client_configs(&opts.seed_config.memd_addrs, &state),
        gen_first_http_endpoints("cb-rust/1", &opts.seed_config.http_addrs, &state),
        &state,
    )
}

fn fail_everywhere(search: &mut Bootstrap) -> Option<Error> {
    loop {
        match search.next() {
            Next::Kv(target) => {
                assert_eq!(target.address, address(11210));
                let ended = search.kv_answered(KvAttempt::NotConnected(Error::new_message_error(
                    "connection refused",
                )));
                assert!(ended.is_none());
            }
            Next::Http(config) => {
                assert_eq!(config.endpoint, "http://127.0.0.1:8091");
                let ended = search.http_answered(HttpAttempt::Answered(
                    "127.0.0.1:8091".to_string(),
                    Err(Error::new_message_error("no route")),
                ));
                assert!(ended.is_none());
            }
            Next::Nobody => return search.exhausted(),
        }
    }
}

#[test]
fn bootstrap_reports_what_every_endpoint_said_when_asked() {
    let mut search = search(&options(true));
    let err = fail_everywhere(&mut search).expect("bootstrap gives up");

    let errors = match err.kind() {
        ErrorKind::BootstrapAllFailed { errors } => errors,
        other => panic!("expected BootstrapAllFailed, got {other:?}"),
    };
    assert_eq!(errors.len(), 2, "expected one failure per seed");
    assert!(
        err.message().starts_with("all bootstrap hosts failed ("),
        "unexpected message: {}",
        err.message()
    );
}

#[test]
fn bootstrap_retries_the_seed_list_by_default() {
    let mut search = search(&options(false));
    for _ in 0..3 {
        assert!(
            fail_everywhere(&mut search).is_none(),
            "the default must keep retrying the seed list rather than reporting a failure"
        );
        assert!(matches!(search.next(), Next::Kv(_)), "from the start");
    }
}

fn terse(vbucket_map: Vec<Vec<i16>>) -> TerseConfig {
    TerseConfig {
        rev: 7,
        rev_epoch: Some(2),
        name: Some("travel".to_string()),
        node_locator: Some("vbucket".to_string()),
        uuid: Some("abc".to_string()),
        bucket_capabilities: None,
        cluster_capabilities: StringMap::new(),
        vbucket_server_map: Some(VBucketServerMap {
            num_replicas: 0,
            vbucket_map,
        }),
        nodes: Some(Vec::<TerseNodeConfig>::new()),
        nodes_ext: Vec::<TerseExtNodeConfig>::new(),
        cluster_name: None,
        cluster_uuid: None,
    }
}

#[test]
fn the_first_config_that_can_be_read_ends_a_bootstrap() {
    let mut search = search(&options(true));
    let ended = search.kv_answered(KvAttempt::Config(Ok(terse(vec![vec![0]]))));
    match ended {
        Some(Ok((config, source))) => {
            assert_eq!((config.rev_epoch, config.rev_id), (2, 7));
            assert_eq!(source, "127.0.0.1:11210");
        }
        _ => panic!("a config was given"),
    }
}

#[test]
fn what_a_bootstrap_cannot_get_past_ends_it() {
    let opts = options(false);
    match search(&opts).kv_answered(KvAttempt::Config(Err("expected value".to_string()))) {
        Some(Err(e)) => assert_eq!(e.message(), "failed to deserialize config: expected value"),
        _ => panic!("the config cannot be decoded"),
    }
    match search(&opts).kv_answered(KvAttempt::NotClosed(Error::new_message_error("broken pipe"))) {
        Some(Err(e)) => assert_eq!(e.message(), "broken pipe"),
        _ => panic!("the connection cannot be closed"),
    }
    let mut http = search(&opts);
    http.kv_answered(KvAttempt::TimedOut);
    match http.http_answered(HttpAttempt::NoHost(Error::new_message_error("no host"))) {
        Some(Err(e)) => assert_eq!(e.message(), "no host"),
        _ => panic!("the URL has no host"),
    }
}

#[test]
fn every_other_failure_is_recorded_under_its_endpoint() {
    let attempts: Vec<(KvAttempt, &str)> = vec![
        (
            KvAttempt::TimedOut,
            "timed out connecting to endpoint after 10s",
        ),
        (
            KvAttempt::NoConfig(MemdxError::new(memdx::Error {
                kind: memdx::ErrorKind::Other,
                text: "no access".to_string(),
                metrics_name: "x".to_string(),
                source: None,
            })),
            "no access",
        ),
        (
            KvAttempt::Config(Ok(terse(Vec::new()))),
            "invalid vbucket map",
        ),
    ];
    for (attempt, text) in attempts {
        let mut search = search(&options(true));
        assert!(search.kv_answered(attempt).is_none());
        assert!(matches!(search.next(), Next::Http(_)), "then http");
        search.http_answered(HttpAttempt::Answered(
            "127.0.0.1:8091".to_string(),
            Err(Error::new_message_error("no route")),
        ));
        let err = search.exhausted().expect("errors are surfaced");
        let ErrorKind::BootstrapAllFailed { errors } = err.kind() else {
            panic!("expected every endpoint's failure");
        };
        assert_eq!(
            errors.get("127.0.0.1:11210").map(|e| e.message()),
            Some(text.to_string())
        );
    }
}

#[test]
fn an_http_config_ends_a_bootstrap_too() {
    let mut search = search(&options(true));
    search.kv_answered(KvAttempt::TimedOut);
    let ended = search.http_answered(HttpAttempt::Answered(
        "127.0.0.1:8091".to_string(),
        Ok(ParsedConfig::default()),
    ));
    match ended {
        Some(Ok((_, source))) => assert_eq!(source, "127.0.0.1:8091"),
        _ => panic!("a config was given"),
    }
}

#[test]
fn the_seeds_are_named_after_their_addresses() {
    let mut opts = options(true);
    opts.tls_config = Some(TlsConfig { id: 3 });
    let state = AgentState::new(&opts);
    let kv = gen_first_kv_client_configs(&opts.seed_config.memd_addrs, &state);
    let target = kv.get("kv-127.0.0.1:11210").expect("the seed");
    assert_eq!(target.tls_config, Some(TlsConfig { id: 3 }));
    assert_eq!(target.canonical_address, address(11210));

    let http = gen_first_http_endpoints("cb-rust/1", &opts.seed_config.http_addrs, &state);
    let config = http.get("mgmt127.0.0.1:8091").expect("the seed");
    assert_eq!(config.endpoint, "https://127.0.0.1:8091");
    assert_eq!(config.user_agent, "cb-rust/1");
    assert!(matches!(
        config.request(),
        HttpConfigRequest::Bucket("travel")
    ));
    opts.bucket_name = None;
    let state = AgentState::new(&opts);
    let http = gen_first_http_endpoints("cb-rust/1", &opts.seed_config.http_addrs, &state);
    assert!(matches!(
        http.entries()[0].1.request(),
        HttpConfigRequest::Cluster
    ));
}

#[test]
fn a_management_endpoint_is_presented_with_what_the_agent_has() {
    assert_eq!(
        bootstrap_auth(&password()),
        Auth::BasicAuth {
            username: "user".to_string(),
            password: "pass".to_string()
        }
    );
    assert_eq!(
        bootstrap_auth(&Authenticator::CertificateAuthenticator(
            CertificateAuthenticator {}
        )),
        Auth::BasicAuth {
            username: String::new(),
            password: String::new()
        }
    );
    assert_eq!(
        bootstrap_auth(&Authenticator::JwtAuthenticator(JwtAuthenticator {
            token: "t".to_string()
        })),
        Auth::BearerAuth {
            token: "t".to_string()
        }
    );
}

#[test]
fn the_options_become_the_state() {
    let mut opts = options(true);
    let state = AgentState::new(&opts);
    assert!(!state.disable_error_map);
    assert!(state.disable_mutation_tokens);
    assert!(!state.disable_server_durations);
    assert_eq!(state.tcp_keep_alive_time, Duration::from_secs(60));
    assert_eq!(state.num_pool_connections, 2);
    assert_eq!(
        state.message("PasswordAuthenticator"),
        "{ bucket: Some(\"travel\"), network_type: , num_pool_connections: 2, \
         latest_config_rev_id: 0, latest_config_rev_epoch: 0, \
         authenticator: PasswordAuthenticator }"
    );
    opts.bucket_name = None;
    opts.tcp_keep_alive_time = Some(Duration::from_micros(5));
    let mut state = AgentState::new(&opts);
    assert_eq!(state.tcp_keep_alive_time, Duration::from_micros(5), "as it is, to the nanosecond");
    state.latest_config.rev_id = -12;
    assert_eq!(
        state.message("x"),
        "{ bucket: None, network_type: , num_pool_connections: 2, \
         latest_config_rev_id: -12, latest_config_rev_epoch: 0, authenticator: x }"
    );
    assert_eq!(user_agent("1.2.3"), "cb-rust/1.2.3");
}

#[test]
fn a_network_is_taken_from_the_caller_only_where_it_names_one() {
    assert_eq!(named_network(None), None);
    assert_eq!(named_network(Some(String::new())), None);
    assert_eq!(named_network(Some("auto".to_string())), None);
    assert_eq!(
        named_network(Some("external".to_string())),
        Some("external".to_string())
    );
}

#[test]
fn streams_get_a_manager_of_their_own() {
    let opts = options(true);
    let state = AgentState::new(&opts);
    let points = manager_options(Serves::Points, "me", &opts, &state);
    let streams = manager_options(Serves::Streams, "me", &opts, &state);
    assert_eq!((points.num_pool_connections, streams.num_pool_connections), (2, 5));
    assert_eq!((points.on_demand_connect, streams.on_demand_connect), (false, true));
    assert!(points.bootstrap_options.publishes_error_map);
    assert!(!streams.bootstrap_options.publishes_error_map);
    assert_eq!(streams.selected_bucket, Some("travel".to_string()));
    assert_eq!(streams.connect_throttle_period, Duration::from_secs(5));

    let first = first_client_options("me", &state);
    assert!(first.disable_mutation_tokens && first.disable_server_durations);
    assert_eq!(first.auth_mechanisms, vec![AuthMechanism::ScramSha512]);
}

fn config(rev_epoch: i64, rev_id: i64) -> ParsedConfig {
    let mut config = ParsedConfig::default();
    config.rev_epoch = rev_epoch;
    config.rev_id = rev_id;
    config
}

fn agent() -> AgentInner {
    AgentInner::new(
        AgentState::new(&options(true)),
        config(1, 5),
        "default".to_string(),
    )
}

fn position(steps: &[UpdateStep], step: UpdateStep) -> usize {
    steps.iter().position(|s| *s == step).expect("a step")
}

#[test]
fn a_revision_is_seen_only_once_its_config_is_in_use() {
    let mut agent = agent();
    assert_eq!(agent.config_revision(), Some((1, 5)));
    let (applying, steps) = agent.apply_config(config(2, 1));
    assert_eq!(agent.config_revision(), Some((1, 5)), "not yet");
    assert_eq!(steps.last(), Some(&UpdateStep::PublishRevision));
    agent.publish(applying);
    assert_eq!(agent.config_revision(), Some((2, 1)));
    assert_eq!(agent.get_bucket_name(), Some("travel".to_string()));
}

#[test]
fn endpoints_are_added_before_routing_and_removed_behind_it() {
    let (_, steps) = agent().apply_config(config(2, 1));
    let routing = position(&steps, UpdateStep::UpdateRouting);
    for serves in [Serves::Points, Serves::Streams] {
        assert!(position(&steps, UpdateStep::AddEndpoints(serves)) < routing);
        assert!(routing < position(&steps, UpdateStep::RemoveEndpoints(serves)));
    }
}

#[test]
fn new_credentials_drain_the_index_pools_last() {
    let mut agent = agent();
    let steps = agent.reconfigure(ReconfigureAgentOptions {
        tls_config: Some(TlsConfig { id: 9 }),
        authenticator: Authenticator::JwtAuthenticator(JwtAuthenticator {
            token: "t".to_string(),
        }),
    });
    assert_eq!(steps.first(), Some(&UpdateStep::UpdateHttpTls));
    assert_eq!(steps.last(), Some(&UpdateStep::DrainIndexPools));
    assert!(!steps.contains(&UpdateStep::PublishRevision));
    assert_eq!(agent.state_ref().tls_config, Some(TlsConfig { id: 9 }));
    let told = agent.component_configs();
    assert_eq!(told.index_config.tls_config, Some(TlsConfig { id: 9 }));
    assert!(matches!(told.auth, Authenticator::JwtAuthenticator(_)));
}

#[test]
fn a_bucket_can_do_what_its_config_says() {
    let mut applied = config(2, 1);
    applied.bucket = Some(ParsedConfigBucket {
        bucket_uuid: String::new(),
        bucket_name: "travel".to_string(),
        bucket_type: BucketType::Couchbase,
        vbucket_map: None,
        features: vec![
            ParsedConfigBucketFeature::Other,
            ParsedConfigBucketFeature::RangeScan,
            ParsedConfigBucketFeature::Unknown,
            ParsedConfigBucketFeature::ReviveDocument,
        ],
    });
    let mut agent = agent();
    assert!(matches!(
        agent.bucket_features().expect_err("no bucket").kind(),
        ErrorKind::NoBucket
    ));
    agent.apply_config(applied);
    assert_eq!(
        agent.bucket_features().expect("a bucket"),
        vec![BucketFeature::RangeScan, BucketFeature::ReviveDocument]
    );

    let message = "range scan is not supported by this bucket";
    assert!(bucket_feature_check(agent.bucket_features(), BucketFeature::RangeScan, message).is_ok());
    let err = bucket_feature_check(agent.bucket_features(), BucketFeature::ReplicaRead, message)
        .expect_err("not supported");
    match err.kind() {
        ErrorKind::FeatureNotAvailable { feature, msg } => {
            assert_eq!((feature.as_str(), msg.as_str()), ("ReplicaRead", message));
        }
        other => panic!("expected FeatureNotAvailable, got {other:?}"),
    }
}

#[test]
fn a_pushed_revision_is_read_from_the_extras() {
    let mut extras = Vec::new();
    extras.extend_from_slice(&3i64.to_be_bytes());
    extras.extend_from_slice(&(-2i64).to_be_bytes());
    assert_eq!(
        pushed_revision(OpCode::SetKey, Some(&extras)),
        Some((3, -2))
    );
    assert_eq!(pushed_revision(OpCode::SetKey, Some(&extras[..15])), None);
    assert_eq!(pushed_revision(OpCode::SetKey, None), None);
    assert_eq!(pushed_revision(OpCode::Stat, Some(&extras)), None);
    let mut least = i64::MIN.to_be_bytes().to_vec();
    least.extend_from_slice(&i64::MAX.to_be_bytes());
    assert_eq!(
        pushed_revision(OpCode::SetKey, Some(&least)),
        Some((i64::MIN, i64::MAX))
    );
}

#[test]
fn a_config_that_cannot_be_read_changes_nothing() {
    assert!(readable_config(terse(Vec::new()), "127.0.0.1").is_none());
    let read = readable_config(terse(vec![vec![0]]), "127.0.0.1").expect("a config");
    assert_eq!((read.rev_epoch, read.rev_id), (2, 7));
}

#[test]
fn mechanisms_that_do_not_fit_the_connection_are_warned_of() {
    let mut opts = options(false);
    assert!(mechanism_warning(&opts).is_none());
    opts.auth_mechanisms = vec![AuthMechanism::ScramSha1, AuthMechanism::Plain];
    assert!(matches!(
        mechanism_warning(&opts),
        Some(MechanismWarning::PlainWithoutTls)
    ));
    opts.tls_config = Some(TlsConfig { id: 1 });
    assert!(matches!(
        mechanism_warning(&opts),
        Some(MechanismWarning::ScramOverTls)
    ));
    opts.auth_mechanisms = vec![AuthMechanism::Plain];
    assert!(mechanism_warning(&opts).is_none());
    opts.auth_mechanisms = vec![];
    assert!(mechanism_warning(&opts).is_none());
}

#[test]
fn an_agent_starts_without_a_config() {
    let state = AgentState::new(&options(false));
    assert!(state.latest_config.features.is_empty());
    assert_eq!(state.latest_config.source_hostname, "");
    assert!(state.latest_config.cluster_labels.is_none());
}

#[test]
fn a_capability_is_read_by_its_name() {
    assert_eq!(
        bucket_feature("rangeScan"),
        ParsedConfigBucketFeature::RangeScan
    );
    assert_eq!(
        bucket_feature("tombstonedUserXAttrs"),
        ParsedConfigBucketFeature::CreateAsDeleted
    );
    assert_eq!(bucket_feature("xattr"), ParsedConfigBucketFeature::Other);
    assert_eq!(
        bucket_feature("rangescan"),
        ParsedConfigBucketFeature::Unknown
    );
}
