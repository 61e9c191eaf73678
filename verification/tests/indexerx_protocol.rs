//! The indexer's wire protocol: frames, messages, bounds and errors.
use bytes::{BufMut, Bytes, BytesMut};
use couchbase_core::indexerx::error::{AuthCode, Error, ErrorKind, ServerError};
use couchbase_core::indexerx::packet_codec::{
    checksum, CodecError, Frame, PacketCodec, ProtocolError, CHECKSUM_SHIFT, ENCODING_PROTOBUF,
    HEADER_LEN,
};
use couchbase_core::indexerx::proto::{
    decode_response, Consistency, ParseError, Request, Response, ScanVector, ScanVectorEntry,
    PROTOBUF_VERSION,
};
use couchbase_core::indexerx::span::{Filter, Inclusion, Scan};
use couchbase_core::indexerx::wire;

#[test]
fn the_three_classified_conditions_are_recognised() {
    assert!(matches!(
        ServerError::classify("Not my partition"),
        ServerError::NotMyPartition(_)
    ));
    assert!(matches!(
        ServerError::classify("Index not found"),
        ServerError::IndexNotFound(_)
    ));
    assert!(matches!(
        ServerError::classify("Index not ready for serving queries"),
        ServerError::IndexNotReady(_)
    ));
}

#[test]
fn classification_survives_being_wrapped() {
    let wrapped = "Scan request 4f2a failed: Index not found (defnId 8891)";
    assert!(matches!(
        ServerError::classify(wrapped),
        ServerError::IndexNotFound(_)
    ));
    assert!(matches!(
        ServerError::classify("NOT MY PARTITION"),
        ServerError::NotMyPartition(_)
    ));
}

#[test]
fn an_unclassified_error_keeps_its_text() {
    let err = ServerError::classify("something we have never seen");
    assert_eq!(
        err,
        ServerError::Other("something we have never seen".into())
    );
    assert_eq!(err.raw(), "something we have never seen");
    assert!(!err.is_retryable_after_refresh());
}

#[test]
fn classified_errors_keep_their_text_too() {
    let err = ServerError::classify("Index not found");
    assert_eq!(err.raw(), "Index not found");
}

#[test]
fn only_a_moved_partition_is_worth_retrying() {
    assert!(ServerError::classify("Not my partition").is_retryable_after_refresh());
    assert!(!ServerError::classify("Index not found").is_retryable_after_refresh());
    assert!(!ServerError::classify("Index not ready").is_retryable_after_refresh());
}

#[test]
fn auth_codes_match_the_transport_constants() {
    assert_eq!(AuthCode::from(1u32), AuthCode::Success);
    assert_eq!(AuthCode::from(2), AuthCode::Failure);
    assert_eq!(AuthCode::from(3), AuthCode::Missing);
    assert_eq!(AuthCode::from(9), AuthCode::Unknown(9));
}

#[test]
fn an_io_error_keeps_both_its_classification_and_its_text() {
    let err = Error::from(std::io::Error::new(
        std::io::ErrorKind::ConnectionReset,
        "peer went away",
    ));
    assert_eq!(
        err.kind(),
        &ErrorKind::Io {
            kind: std::io::ErrorKind::ConnectionReset
        }
    );
    assert!(err.message().contains("peer went away"));
    assert!(err.source().is_some());
}

#[test]
fn inclusion_discriminants_are_the_wire_values() {
    assert_eq!(Inclusion::Neither.as_wire(), 0);
    assert_eq!(Inclusion::Low.as_wire(), 1);
    assert_eq!(Inclusion::High.as_wire(), 2);
    assert_eq!(Inclusion::Both.as_wire(), 3);
}

#[test]
fn an_unbounded_end_is_absent_rather_than_a_sentinel() {
    let f = Filter {
        low: Some(b"5".to_vec()),
        high: None,
        inclusion: Inclusion::Low,
    };
    assert_eq!(f.high, None);
}

#[test]
fn eq_is_an_inclusive_range_over_one_value() {
    let f = Filter::eq(b"42".to_vec());
    assert_eq!(f.low.as_deref(), Some(&b"42"[..]));
    assert_eq!(f.high.as_deref(), Some(&b"42"[..]));
    assert_eq!(f.inclusion, Inclusion::Both);
}

#[test]
fn a_scan_is_either_filtered_or_equal_but_not_both() {
    assert!(Scan::filtered(vec![Filter::any()]).equals.is_empty());
    assert!(Scan::equals(vec![b"1".to_vec()]).filters.is_empty());
}

#[test]
fn an_empty_scan_is_the_whole_index() {
    assert!(Scan::all().is_all());
    assert!(!Scan::filtered(vec![Filter::eq(b"1".to_vec())]).is_all());
}

fn roundtrip(frame: Frame) -> Frame {
    let mut codec = PacketCodec::default();
    let mut buf = BytesMut::new();
    codec.encode(frame, &mut buf).expect("encode");
    codec
        .decode(&mut buf)
        .expect("decode")
        .expect("a whole frame")
}

#[test]
fn payload_survives_a_round_trip() {
    let frame = Frame::Payload(Bytes::from_static(b"\x08\x01hello"));
    assert_eq!(roundtrip(frame.clone()), frame);
}

#[test]
fn the_end_marker_is_not_an_empty_payload() {
    assert_eq!(roundtrip(Frame::EndOfResponse), Frame::EndOfResponse);
}

#[test]
fn a_partial_header_yields_no_frame() {
    let mut codec = PacketCodec::default();
    let mut buf = BytesMut::from(&b"\x00\x00"[..]);
    assert_eq!(codec.decode(&mut buf).expect("decode"), None);
    assert_eq!(buf.len(), 2, "the partial header is left for the next read");
}

#[test]
fn a_partial_payload_yields_no_frame() {
    let mut codec = PacketCodec::default();
    let mut buf = BytesMut::new();
    codec
        .encode(Frame::Payload(Bytes::from_static(b"0123456789")), &mut buf)
        .expect("encode");
    buf.truncate(HEADER_LEN + 4);

    assert_eq!(codec.decode(&mut buf).expect("decode"), None);
    assert_eq!(buf.len(), HEADER_LEN + 4, "nothing was consumed");
}

#[test]
fn two_frames_in_one_buffer_decode_separately() {
    let mut codec = PacketCodec::default();
    let mut buf = BytesMut::new();
    codec
        .encode(Frame::Payload(Bytes::from_static(b"one")), &mut buf)
        .expect("encode");
    codec
        .encode(Frame::Payload(Bytes::from_static(b"two")), &mut buf)
        .expect("encode");
    codec
        .encode(Frame::EndOfResponse, &mut buf)
        .expect("encode");

    assert_eq!(
        codec.decode(&mut buf).unwrap(),
        Some(Frame::Payload(Bytes::from_static(b"one")))
    );
    assert_eq!(
        codec.decode(&mut buf).unwrap(),
        Some(Frame::Payload(Bytes::from_static(b"two")))
    );
    assert_eq!(codec.decode(&mut buf).unwrap(), Some(Frame::EndOfResponse));
    assert_eq!(codec.decode(&mut buf).unwrap(), None);
}

#[test]
fn a_corrupt_checksum_fails_the_frame() {
    let mut codec = PacketCodec::default();
    let mut buf = BytesMut::new();
    codec
        .encode(Frame::Payload(Bytes::from_static(b"0123456789")), &mut buf)
        .expect("encode");

    buf[3] ^= 0x01;

    match codec.decode(&mut buf) {
        Err(CodecError::Protocol(ProtocolError::ChecksumMismatch { .. })) => {}
        other => panic!("expected a checksum mismatch, got {other:?}"),
    }
}

#[test]
fn a_zero_checksum_is_accepted() {
    let mut codec = PacketCodec::default();
    let mut buf = BytesMut::new();
    buf.put_u32(3);
    buf.put_u16(ENCODING_PROTOBUF as u16);
    buf.put_slice(b"abc");

    assert_eq!(
        codec.decode(&mut buf).unwrap(),
        Some(Frame::Payload(Bytes::from_static(b"abc")))
    );
}

#[test]
fn an_unknown_encoding_fails_before_the_payload_is_read() {
    let mut codec = PacketCodec::default();
    let mut buf = BytesMut::new();
    buf.put_u32(3);
    buf.put_u16(0x0020); // not protobuf

    match codec.decode(&mut buf) {
        Err(CodecError::Protocol(ProtocolError::UnknownEncoding(0x20))) => {}
        other => panic!("expected an unknown-encoding error, got {other:?}"),
    }
}

#[test]
fn compression_is_refused_rather_than_ignored() {
    let mut codec = PacketCodec::default();
    let mut buf = BytesMut::new();
    buf.put_u32(3);
    buf.put_u16(ENCODING_PROTOBUF as u16 | 0x0001); // snappy
    buf.put_slice(b"abc");

    match codec.decode(&mut buf) {
        Err(CodecError::Protocol(ProtocolError::UnsupportedCompression(1))) => {}
        other => panic!("expected an unsupported-compression error, got {other:?}"),
    }
}

#[test]
fn an_oversize_length_fails_before_allocating_for_it() {
    let mut codec = PacketCodec::new(64);
    let mut buf = BytesMut::new();
    let len_be = 1_000_000u32.to_be_bytes();
    buf.put_slice(&len_be);
    buf.put_u16(ENCODING_PROTOBUF as u16 | ((checksum(len_be) as u16) << CHECKSUM_SHIFT));

    match codec.decode(&mut buf) {
        Err(CodecError::Protocol(ProtocolError::PayloadTooLong {
            len: 1_000_000,
            max: 64,
        })) => {}
        other => panic!("expected a payload-too-long error, got {other:?}"),
    }
}

#[test]
fn checksum_matches_the_go_implementation() {
    assert_eq!(checksum(0u32.to_be_bytes()), 0x00);
    assert_eq!(checksum(1u32.to_be_bytes()), 0x10);
    assert_eq!(checksum(0x1234u32.to_be_bytes()), 0x42);
    assert_eq!(checksum(0xFFu32.to_be_bytes()), 0x70);
}

fn payload(f: impl FnOnce(&mut wire::QueryPayload)) -> Result<wire::QueryPayload, String> {
    let mut p = wire::QueryPayload::blank(PROTOBUF_VERSION);
    f(&mut p);
    Ok(p)
}

#[test]
fn entries_decode_with_their_keys() {
    let bytes = payload(|p| {
        p.stream = Some(wire::ResponseStream {
            index_entries: vec![
                wire::IndexEntry {
                    entry_key: Some(Bytes::from_static(b"[3,5]")),
                    primary_key: Bytes::from_static(b"doc-1"),
                },
                wire::IndexEntry {
                    entry_key: None,
                    primary_key: Bytes::from_static(b"doc-2"),
                },
            ],
            err: None,
        });
    });

    let Response::Entries(entries) = decode_response(bytes).expect("decode") else {
        panic!("expected entries");
    };
    assert_eq!(entries.len(), 2);
    assert_eq!(entries[0].entry_key.as_deref(), Some(&b"[3,5]"[..]));
    assert_eq!(entries[0].primary_key, Bytes::from_static(b"doc-1"));
    assert_eq!(entries[1].entry_key, None);
}

#[test]
fn an_error_inside_a_stream_becomes_an_err() {
    let bytes = payload(|p| {
        p.stream = Some(wire::ResponseStream {
            index_entries: vec![],
            err: Some(wire::Error {
                error: "Not my partition".into(),
            }),
        });
    });

    let err = decode_response(bytes).expect_err("expected a server error");
    let ErrorKind::Server(server) = err.kind() else {
        panic!("expected a server error, got {err:?}");
    };
    assert!(server.is_retryable_after_refresh());
    assert_eq!(server.raw(), "Not my partition");
}

#[test]
fn an_empty_error_string_is_success() {
    let bytes = payload(|p| {
        p.stream_end = Some(wire::StreamEndResponse {
            err: Some(wire::Error {
                error: String::new(),
            }),
            read_units: Some(7),
        });
    });

    assert_eq!(
        decode_response(bytes).expect("decode"),
        Response::StreamEnd {
            read_units: Some(7)
        }
    );
}

#[test]
fn an_error_on_the_stream_end_becomes_an_err_too() {
    let bytes = payload(|p| {
        p.stream_end = Some(wire::StreamEndResponse {
            err: Some(wire::Error {
                error: "Index not ready for serving queries".into(),
            }),
            read_units: None,
        });
    });

    let err = decode_response(bytes).expect_err("expected index-not-ready");
    assert!(matches!(
        err.kind(),
        ErrorKind::Server(ServerError::IndexNotReady(_))
    ));
}

#[test]
fn a_count_error_beats_its_count() {
    let bytes = payload(|p| {
        p.count_response = Some(wire::CountResponse {
            count: 0,
            err: Some(wire::Error {
                error: "Index not found".into(),
            }),
        });
    });

    let err = decode_response(bytes).expect_err("expected index-not-found");
    assert!(matches!(
        err.kind(),
        ErrorKind::Server(ServerError::IndexNotFound(_))
    ));
}

#[test]
fn a_wrong_version_is_named_here_rather_than_downstream() {
    let mut p = wire::QueryPayload::blank(2);
    p.helo_response = Some(wire::HeloResponse { version: 2 });

    let err = decode_response(Ok(p)).expect_err("expected a version error");
    assert_eq!(
        err.kind(),
        &ErrorKind::Parse(ParseError::UnsupportedVersion {
            got: 2,
            expected: 1,
        })
    );
}

#[test]
fn an_empty_payload_is_not_a_response() {
    let bytes = payload(|_| {});
    let err = decode_response(bytes).expect_err("expected unknown-payload");
    assert_eq!(err.kind(), &ErrorKind::Parse(ParseError::UnknownPayload));
}

#[test]
fn garbage_is_reported_as_malformed() {
    let err = decode_response(Err("failed to decode".to_string())).expect_err("expected undecodable");
    assert!(matches!(
        err.kind(),
        ErrorKind::Parse(ParseError::Undecodable(_))
    ));
}

#[test]
fn the_wrong_response_kind_is_caught() {
    let bytes = payload(|p| p.auth_response = Some(wire::AuthResponse { code: 1 }));
    let resp = decode_response(bytes).expect("decode");

    let err = resp
        .expect_kind("CountResponse")
        .expect_err("expected a message-kind error");
    assert_eq!(
        err.kind(),
        &ErrorKind::Parse(ParseError::UnexpectedMessage {
            expected: "CountResponse",
            got: "AuthResponse",
        })
    );
}

#[test]
fn a_request_round_trips_through_the_payload_wrapper() {
    let request = Request::helo();
    let decoded = request.payload();
    assert_eq!(decoded.version, PROTOBUF_VERSION);
    assert_eq!(
        decoded.helo_request.as_ref().expect("helo").version,
        PROTOBUF_VERSION
    );
}

#[test]
fn auth_carries_the_credentials_and_the_client_version() {
    let request = Request::auth("Administrator", "password", 8);
    let decoded = request.payload();
    let auth = decoded.auth_request.as_ref().expect("auth");
    assert_eq!(auth.user, "Administrator");
    assert_eq!(auth.pass, "password");
    assert_eq!(auth.client_version, Some(8));
}

#[test]
fn a_count_sends_the_empty_span_the_schema_requires() {
    let request = Request::count_all(8891, Consistency::Session, vec![0]);
    let decoded = request.payload();
    let count = decoded.count_request.as_ref().expect("count");
    assert_eq!(count.defn_id, 8891);
    assert_eq!(count.cons, 2, "Session is request_plus, wire value 2");
    assert_eq!(count.partition_ids, vec![0]);
    assert!(count.span.range.is_none());
    assert!(count.span.equals.is_empty());
}

#[test]
fn a_scan_vector_without_a_vbuuid_is_refused() {
    let entry = |vbuuid| ScanVectorEntry {
        vbucket: 1,
        seqno: 2,
        vbuuid,
    };
    assert!(ScanVector::new(vec![entry(5), entry(0)]).is_err());
    let vector = ScanVector::new(vec![entry(5)]).expect("identified");
    let request = Request::count_all(1, Consistency::Query(vector), vec![]);
    let count = request.payload().count_request.as_ref().expect("count");
    assert_eq!(count.cons, 3);
    let ts = count.ts_vector.as_ref().expect("a vector");
    assert_eq!((ts.vbnos[0], ts.seqnos[0], ts.vbuuids[0]), (1, 2, 5));
}

#[test]
fn the_end_marker_is_six_zeroes_on_the_wire() {
    let mut buf = BytesMut::new();
    PacketCodec::default()
        .encode(Frame::EndOfResponse, &mut buf)
        .expect("encode");
    assert_eq!(&buf[..], &[0u8; 6]);
}
