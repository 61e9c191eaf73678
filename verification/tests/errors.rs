//! How failures read, and what they are counted under.
use std::time::Duration;

use couchbase_core::address::Address;
use couchbase_core::error::{
    BootstrapFailures, ConnectAttemptFailure, Error, ErrorKind, MemdxError,
};
use couchbase_core::failure::ServiceFailure;
use couchbase_core::indexerx::error::{
    AuthCode, Error as IndexerError, ErrorKind as IndexerErrorKind, ServerError,
};
use couchbase_core::indexerx::io_failure::IoFailure;
use couchbase_core::indexerx::packet_codec::{CodecError, ProtocolError};
use couchbase_core::indexerx::proto::ParseError;
use couchbase_core::indexrouter::{IndexRef, RouteError};
use couchbase_core::licence::licence_header;
use couchbase_core::memdx;
use couchbase_core::retry::RetryRequest;
use couchbase_core::service_type::ServiceType;
use couchbase_core::string_map::StringMap;
use couchbase_core::text::{decimal_of, parse_unsigned};

fn failure(text: &str) -> ServiceFailure {
    ServiceFailure {
        text: text.to_string(),
        metrics_name: "counted".to_string(),
        source: None,
    }
}

fn memdx_error() -> MemdxError {
    MemdxError::new(memdx::Error {
        kind: memdx::ErrorKind::Other,
        text: "not found".to_string(),
        metrics_name: "KeyNotFound".to_string(),
        source: None,
    })
}

fn index() -> IndexRef {
    IndexRef::new("b", "s", "c", "ix")
}

#[test]
fn every_kind_of_error_reads_as_it_should() {
    let cases: Vec<(ErrorKind, &str, &str)> = vec![
        (
            ErrorKind::VbucketMapOutdated,
            "vbucket map outdated",
            "VBucketMapOutdated",
        ),
        (
            ErrorKind::InvalidArgument {
                msg: "m".to_string(),
                arg: Some("a".to_string()),
            },
            "invalid argument a: m",
            "InvalidArgument",
        ),
        (
            ErrorKind::InvalidArgument {
                msg: "m".to_string(),
                arg: None,
            },
            "invalid argument: m",
            "InvalidArgument",
        ),
        (ErrorKind::Memdx(memdx_error()), "not found", "KeyNotFound"),
        (ErrorKind::Analytics(failure("an")), "an", "counted"),
        (ErrorKind::Query(failure("qu")), "qu", "counted"),
        (ErrorKind::Search(failure("se")), "se", "counted"),
        (ErrorKind::Http(failure("ht")), "ht", "counted"),
        (ErrorKind::Mgmt(failure("mg")), "mg", "counted"),
        (
            ErrorKind::Indexer(IndexerError::new_busy_error()),
            "indexerx connection is already serving a request",
            "indexerx.Busy",
        ),
        (
            ErrorKind::IndexRouting(RouteError::NoTopology),
            "no index topology has been read yet",
            "IndexRouting",
        ),
        (
            ErrorKind::EndpointNotKnown {
                endpoint: "e".to_string(),
            },
            "endpoint not known: e",
            "EndpointNotKnown",
        ),
        (
            ErrorKind::NoEndpointsAvailable,
            "no endpoints available",
            "NoEndpointsAvailable",
        ),
        (ErrorKind::Shutdown, "shutdown", "Shutdown"),
        (ErrorKind::NoBucket, "no bucket selected", "NoBucket"),
        (
            ErrorKind::IllegalState {
                msg: "m".to_string(),
            },
            "illegal state: m",
            "IllegalState",
        ),
        (
            ErrorKind::NoVbucketMap,
            "invalid vbucket map",
            "NoVbucketMap",
        ),
        (
            ErrorKind::CollectionManifestOutdated {
                manifest_uid: 3,
                server_manifest_uid: 4,
            },
            "collection manifest outdated: our manifest uid: 3, server manifest uid: 4",
            "CollectionManifestOutdated",
        ),
        (
            ErrorKind::Message {
                msg: "m".to_string(),
            },
            "m",
            "_OTHER",
        ),
        (
            ErrorKind::ServiceNotAvailable {
                service: ServiceType::QUERY,
            },
            "service not available: query",
            "ServiceNotAvailable",
        ),
        (
            ErrorKind::FeatureNotAvailable {
                feature: "f".to_string(),
                msg: "m".to_string(),
            },
            "feature not available: f, m",
            "FeatureNotAvailable",
        ),
        (
            ErrorKind::Internal {
                msg: "m".to_string(),
            },
            "internal error: m",
            "_OTHER",
        ),
        (
            ErrorKind::NoServerAssigned { requested_vb_id: 9 },
            "no server assigned for vbucket id: 9",
            "NoServerAssigned",
        ),
        (
            ErrorKind::InvalidVbucket {
                requested_vb_id: 9,
                num_vbuckets: 8,
            },
            "invalid vbucket id: 9, num vbuckets: 8",
            "InvalidVbucket",
        ),
        (
            ErrorKind::InvalidReplica {
                requested_replica: 2,
                num_servers: 1,
            },
            "invalid replica: 2, num servers: 1",
            "InvalidReplica",
        ),
        (
            ErrorKind::Compression {
                msg: "m".to_string(),
            },
            "compression error: m",
            "Compression",
        ),
        (
            ErrorKind::ConnectFailed {
                endpoint: "e".to_string(),
                source: ConnectAttemptFailure::new(Error::new_message_error("refused")),
            },
            "could not connect to e: refused",
            "ConnectFailed",
        ),
    ];
    for (kind, text, name) in cases {
        assert_eq!(kind.message(), text);
        let err = Error::from(kind);
        assert_eq!(err.message(), text);
        assert_eq!(err.metrics_name(), name);
    }
}

#[test]
fn a_failed_bootstrap_lists_its_hosts_in_order() {
    let mut errors = StringMap::new();
    errors.insert("b:1".to_string(), Error::new_message_error("two"));
    errors.insert("a:1".to_string(), Error::new_message_error("one"));
    let err = Error::new_bootstrap_all_failed_error(errors);
    assert_eq!(
        err.message(),
        "all bootstrap hosts failed (a:1: {one}, b:1: {two})"
    );
    let ErrorKind::BootstrapAllFailed { errors } = err.kind() else {
        panic!("expected every host's failure");
    };
    assert_eq!(errors.len(), 2);
    assert!(!errors.is_empty());
    assert_eq!(errors.get("b:1").map(|e| e.message()), Some("two".to_string()));
    assert!(errors.get("c:1").is_none());
    let names: Vec<&str> = errors.iter().iter().map(|(name, _)| name.as_str()).collect();
    assert_eq!(names, ["a:1", "b:1"]);
}

#[test]
fn an_operation_says_where_it_was_dispatched() {
    let e = memdx_error()
        .with_dispatched_to("10.0.0.1:11210".to_string())
        .with_dispatched_from("10.0.0.9:5".to_string());
    assert_eq!(
        e.message(),
        "not found, dispatched to: 10.0.0.1:11210, dispatched from: 10.0.0.9:5"
    );
    assert_eq!(e.dispatched_to().map(String::as_str), Some("10.0.0.1:11210"));
    assert_eq!(e.dispatched_from().map(String::as_str), Some("10.0.0.9:5"));
    assert_eq!(e.metrics_name(), "KeyNotFound");
}

#[test]
fn retries_are_told_with_the_error() {
    let mut err = Error::new_message_error("m");
    let mut retry = RetryRequest::new("get", true);
    retry.retry_attempts = 3;
    err.set_retry_info(retry);
    assert_eq!(err.retry_info().map(|r| r.retry_attempts), Some(3));
    assert!(err.message().starts_with('m'), "{}", err.message());
    assert!(err.message().contains('3'), "{}", err.message());
}

#[test]
fn an_indexer_error_reads_as_it_should() {
    let io = IoFailure {
        kind: std::io::ErrorKind::ConnectionReset,
        text: "peer went away".to_string(),
    };
    let cases: Vec<(IndexerError, &str, &str)> = vec![
        (
            IndexerError::new_io_error(io),
            "indexerx IO error: connection reset: peer went away",
            "indexerx.Io",
        ),
        (
            IndexerError::new_connect_error("m", "refused".to_string()),
            "indexerx connect error: m: refused",
            "indexerx.Connect",
        ),
        (
            IndexerError::from(ProtocolError::UnknownEncoding(0x20)),
            "indexerx protocol error: unknown payload encoding 0x20",
            "indexerx.Protocol",
        ),
        (
            IndexerError::from(ProtocolError::UnsupportedCompression(1)),
            "indexerx protocol error: unsupported compression scheme 1",
            "indexerx.Protocol",
        ),
        (
            IndexerError::from(ProtocolError::ChecksumMismatch {
                expected: 1,
                actual: 2,
            }),
            "indexerx protocol error: header checksum mismatch: expected 1, computed 2",
            "indexerx.Protocol",
        ),
        (
            IndexerError::from(CodecError::Protocol(ProtocolError::PayloadTooLong {
                len: 9,
                max: 8,
            })),
            "indexerx protocol error: payload of 9 bytes exceeds the maximum of 8",
            "indexerx.Protocol",
        ),
        (
            IndexerError::from(ParseError::UnknownPayload),
            "indexerx parse error: QueryPayload carried no message this client recognises",
            "indexerx.Parse",
        ),
        (
            IndexerError::from(ServerError::classify("Not My Partition")),
            "indexerx server error: not my partition: Not My Partition",
            "indexerx.NotMyPartition",
        ),
        (
            IndexerError::from(ServerError::classify("index not ready yet")),
            "indexerx server error: index not ready: index not ready yet",
            "indexerx.IndexNotReady",
        ),
        (
            IndexerError::from(ServerError::classify("else")),
            "indexerx server error: else",
            "indexerx._OTHER",
        ),
        (
            IndexerError::new_authentication_error(AuthCode::Failure),
            "indexerx authentication failed: invalid credentials",
            "indexerx.Authentication",
        ),
        (
            IndexerError::new_authentication_error(AuthCode::Unknown(9)),
            "indexerx authentication failed: unknown auth code 9",
            "indexerx.Authentication",
        ),
        (
            IndexerError::new_unexpected_eof_error(),
            "indexerx connection closed before the response ended",
            "indexerx.UnexpectedEof",
        ),
        (
            IndexerError::new_http_error(failure("down")),
            "indexerx http error: down",
            "counted",
        ),
        (
            IndexerError::new_pool_exhausted_error("h:1".to_string(), Duration::from_micros(20_500)),
            "indexerx connection pool for h:1 exhausted after 20.5ms",
            "indexerx.PoolExhausted",
        ),
        (
            IndexerError::new_decoding_error("m"),
            "indexerx decoding error: m",
            "indexerx.Decoding",
        ),
    ];
    for (err, text, name) in cases {
        assert_eq!(err.message(), text);
        assert_eq!(err.metrics_name(), name);
    }
    assert_eq!(AuthCode::Missing.message(), "credentials missing");
    assert_eq!(AuthCode::Success.message(), "success");
    assert!(matches!(
        IndexerError::new_pool_exhausted_error("h:1".to_string(), Duration::from_micros(20)).kind(),
        IndexerErrorKind::PoolExhausted { waited, .. } if *waited == Duration::from_micros(20)
    ));
}

#[test]
fn a_routing_failure_names_the_index() {
    let name = index().message();
    assert_eq!(
        RouteError::IndexNotFound(index()).message(),
        format!("no index {name}")
    );
    assert_eq!(
        RouteError::IndexNotReady(index()).message(),
        format!("index {name} exists but no instance is ready")
    );
    assert_eq!(
        RouteError::UnknownNode("h:1".to_string()).message(),
        "node h:1 is not in the cluster config"
    );
}

#[test]
fn an_address_is_a_host_and_a_port() {
    let address = Address {
        host: "h".to_string(),
        port: 65535,
    };
    assert_eq!(address.message(), "h:65535");
}

#[test]
fn numbers_are_written_and_read_in_decimal() {
    assert_eq!(decimal_of(0), "0");
    assert_eq!(decimal_of(u64::MAX), "18446744073709551615");
    assert_eq!(parse_unsigned("+18446744073709551615", u64::MAX), Some(u64::MAX));
    assert_eq!(parse_unsigned("18446744073709551616", u64::MAX), None);
    assert_eq!(parse_unsigned("65536", 65535), None);
    assert_eq!(parse_unsigned("", 9), None);
    assert_eq!(parse_unsigned("+", 9), None);
    assert_eq!(parse_unsigned("-1", 9), None);
}

#[test]
fn a_generated_file_takes_over_the_leading_comment() {
    assert_eq!(
        licence_header("/* one\n two */ syntax = \"proto2\"; /* three */"),
        Some("/* one\n two */".to_string())
    );
    assert_eq!(licence_header("// one"), None);
    assert_eq!(licence_header("/* one"), None);
    assert_eq!(licence_header("/"), None);
}

#[test]
fn a_map_keeps_the_order_of_its_keys() {
    let mut map = StringMap::new();
    map.insert("b".to_string(), 1);
    map.insert("a".to_string(), 2);
    map.insert("b".to_string(), 3);
    let listed: Vec<(&str, i32)> = map.entries().iter().map(|(k, v)| (k.as_str(), *v)).collect();
    assert_eq!(listed, [("b", 3), ("a", 2)]);
    map.remove("b");
    assert!(!map.contains_key("b"));
    assert_eq!(map.len(), 1);
    assert_eq!(map.get("a"), Some(&2));
}

#[test]
fn a_comment_is_not_closed_by_its_own_opening() {
    assert_eq!(
        licence_header("/*/ a */ b"),
        Some("/*/ a */".to_string())
    );
    assert_eq!(licence_header("/*/"), None);
    assert_eq!(licence_header("/**/ b"), Some("/**/".to_string()));
}

#[test]
fn a_failed_connect_is_known_by_its_endpoint() {
    let refused = Error::new_connect_failed_error("a:1", Error::new_message_error("refused"));
    let timed_out = Error::new_connect_failed_error("a:1", Error::new_message_error("timed out"));
    let elsewhere = Error::new_connect_failed_error("b:1", Error::new_message_error("refused"));
    assert_eq!(refused.kind(), timed_out.kind());
    assert_ne!(refused.kind(), elsewhere.kind());
    assert_eq!(refused.source(), Some("refused".to_string()));
    assert!(refused.retry_info().is_none());
}

#[test]
fn kinds_are_compared_with_their_detail() {
    let arg = |arg: Option<&str>| ErrorKind::InvalidArgument {
        msg: "m".to_string(),
        arg: arg.map(str::to_string),
    };
    assert_eq!(arg(Some("a")), arg(Some("a")));
    assert_ne!(arg(Some("a")), arg(None));
    assert_ne!(ErrorKind::Shutdown, ErrorKind::NoBucket);
    assert_eq!(
        ErrorKind::IndexRouting(RouteError::IndexNotFound(index())),
        ErrorKind::IndexRouting(RouteError::IndexNotFound(index()))
    );
    assert_ne!(
        ErrorKind::IndexRouting(RouteError::IndexNotFound(index())),
        ErrorKind::IndexRouting(RouteError::IndexNotReady(index()))
    );
    assert_eq!(
        ErrorKind::Memdx(memdx_error()),
        ErrorKind::Memdx(memdx_error())
    );
    assert_ne!(
        ErrorKind::Memdx(memdx_error()),
        ErrorKind::Memdx(memdx_error().set_doc_id(b"k".to_vec()))
    );
    assert_ne!(ErrorKind::Query(failure("a")), ErrorKind::Query(failure("b")));
    assert_ne!(ErrorKind::Query(failure("a")), ErrorKind::Search(failure("a")));
    assert_ne!(
        ErrorKind::ServiceNotAvailable {
            service: ServiceType::QUERY
        },
        ErrorKind::ServiceNotAvailable {
            service: ServiceType::Other("query".to_string())
        }
    );
    assert_eq!(BootstrapFailures::default().clone().len(), 0);
}
