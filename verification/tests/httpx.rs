//! JSON responses, decoded as they arrive.
use bytes::Bytes;
use couchbase_core::httpx::decoder::{keeps_chunk, Decoder, Polled, Token};
use couchbase_core::httpx::error::Error;
use couchbase_core::httpx::raw_json_row_streamer::{RawJsonRowItem, RawJsonRowStreamer};
use serde_json::Value;

fn fed(data: &'static [u8]) -> Decoder {
    let mut decoder = Decoder::new();
    decoder.feed(Bytes::from_static(data));
    decoder.feed_end();
    decoder
}

fn ready<T>(polled: Polled<T>) -> T {
    match polled {
        Polled::Ready(value) => value,
        Polled::NeedChunk => panic!("everything was fed"),
    }
}

fn decoded(data: &'static [u8]) -> Value {
    let result = ready(fed(data).decode()).unwrap();
    serde_json::from_slice(&result).unwrap()
}

fn token(decoder: &mut Decoder) -> Token {
    ready(decoder.token()).unwrap()
}

#[test]
fn test_decode_object() {
    let mut expected = serde_json::Map::new();
    expected.insert("key".to_string(), Value::from("value"));
    assert_eq!(decoded(b"{\"key\":\"value\"}"), Value::Object(expected));
}

#[test]
fn test_decode_array() {
    assert_eq!(decoded(b"[1, 2, 3]"), Value::from(vec![1, 2, 3]));
}

#[test]
fn test_decode_string() {
    assert_eq!(decoded(b"\"hello\""), Value::from("hello"));
}

#[test]
fn test_decode_number() {
    assert_eq!(decoded(b"123"), Value::from(123));
}

#[test]
fn test_decode_boolean() {
    assert_eq!(decoded(b"true"), Value::from(true));
}

#[test]
fn test_decode_null() {
    assert_eq!(decoded(b"null"), Value::Null);
}

#[test]
fn test_token_object_start() {
    let mut decoder = fed(b"{\"key\":\"value\"}");
    assert_eq!(token(&mut decoder), Token::Delim('{'));
}

#[test]
fn test_token_object_end() {
    let mut decoder = fed(b"{\"key\":\"value\", \"key2\":\"value2\"}");
    assert_eq!(token(&mut decoder), Token::Delim('{'));
    assert_eq!(token(&mut decoder), Token::String("key".to_string()));
    assert_eq!(
        token(&mut decoder),
        Token::Value(Bytes::from_static(br#""value""#))
    );
    assert_eq!(token(&mut decoder), Token::String("key2".to_string()));
    assert_eq!(
        token(&mut decoder),
        Token::Value(Bytes::from_static(br#""value2""#))
    );
    assert_eq!(token(&mut decoder), Token::Delim('}'));
}

#[test]
fn test_token_array_start() {
    let mut decoder = fed(b"[1, 2, 3]");
    assert_eq!(token(&mut decoder), Token::Delim('['));
}

#[test]
fn test_token_array_end() {
    let mut decoder = fed(b"[1, 2, 3]");
    assert_eq!(token(&mut decoder), Token::Delim('['));
    assert_eq!(token(&mut decoder), Token::Value(Bytes::from_static(b"1")));
    assert_eq!(token(&mut decoder), Token::Value(Bytes::from_static(b"2")));
    assert_eq!(token(&mut decoder), Token::Value(Bytes::from_static(b"3")));
    assert_eq!(token(&mut decoder), Token::Delim(']'));
}

#[test]
fn test_token_string() {
    let mut decoder = fed(b"\"hello\"");
    assert_eq!(
        token(&mut decoder),
        Token::Value(Bytes::from_static(br#""hello""#))
    );
}

#[test]
fn test_token_number() {
    let mut decoder = fed(b"123");
    assert_eq!(
        token(&mut decoder),
        Token::Value(Bytes::from_static(b"123"))
    );
}

#[test]
fn test_token_boolean() {
    let mut decoder = fed(b"true");
    assert_eq!(
        token(&mut decoder),
        Token::Value(Bytes::from_static(b"true"))
    );
}

#[test]
fn test_token_null() {
    let mut decoder = fed(b"null");
    assert_eq!(
        token(&mut decoder),
        Token::Value(Bytes::from_static(b"null"))
    );
}

/// The chunks of a body, handed over one by one as they are asked for.
struct Chunks {
    chunks: Vec<Bytes>,
    next: usize,
}

fn chunked(body: &str, size: usize) -> Chunks {
    let bytes = body.as_bytes();
    let mut chunks = Vec::new();
    let mut offset = 0;
    while offset < bytes.len() {
        let end = (offset + size).min(bytes.len());
        chunks.push(Bytes::copy_from_slice(&bytes[offset..end]));
        offset = end;
    }
    Chunks { chunks, next: 0 }
}

impl Chunks {
    fn feed(&mut self, streamer: &mut RawJsonRowStreamer) {
        if self.next >= self.chunks.len() {
            streamer.feed_end();
        } else {
            streamer.feed(self.chunks[self.next].clone());
            self.next += 1;
        }
    }
}

fn read_all(body: &str, chunk_size: usize) -> (Vec<String>, Value) {
    let mut chunks = chunked(body, chunk_size);
    let mut streamer = RawJsonRowStreamer::new(Decoder::new(), "results");
    loop {
        match streamer.read_prelude() {
            Polled::Ready(prelude) => {
                prelude.unwrap();
                break;
            }
            Polled::NeedChunk => chunks.feed(&mut streamer),
        }
    }

    let mut rows = Vec::new();
    let mut metadata = None;
    loop {
        match streamer.next() {
            Polled::NeedChunk => chunks.feed(&mut streamer),
            Polled::Ready(None) => break,
            Polled::Ready(Some(item)) => match item.unwrap() {
                RawJsonRowItem::Row(row) => {
                    rows.push(String::from_utf8(row.to_vec()).unwrap());
                }
                RawJsonRowItem::Metadata(meta) => {
                    metadata = Some(serde_json::from_slice(&meta).unwrap());
                    break;
                }
            },
        }
    }

    let metadata = match metadata {
        Some(metadata) => metadata,
        None => serde_json::from_slice(&streamer.epilog().unwrap()).unwrap(),
    };

    (rows, metadata)
}

const RESPONSE: &str = r#"{"requestID":"abc","signature":{"*":"*"},"results":[{"a":1,"s":"one"},{"a":2,"s":"two, with a comma"},{"a":3,"s":"and a \"quote\""},[4,5,6]],"status":"success"}"#;

#[test]
fn rows_survive_every_chunk_boundary() {
    let expected = vec![
        r#"{"a":1,"s":"one"}"#.to_string(),
        r#"{"a":2,"s":"two, with a comma"}"#.to_string(),
        r#"{"a":3,"s":"and a \"quote\""}"#.to_string(),
        "[4,5,6]".to_string(),
    ];

    for chunk_size in 1..=RESPONSE.len() {
        let (rows, metadata) = read_all(RESPONSE, chunk_size);

        assert_eq!(expected, rows, "chunked {chunk_size} bytes at a time");
        assert_eq!(
            Value::from("success"),
            metadata["status"],
            "chunked {chunk_size} bytes at a time"
        );
        assert_eq!(Value::from("abc"), metadata["requestID"]);
    }
}

#[test]
fn a_null_rows_attribute_yields_no_rows() {
    let body = r#"{"requestID":"abc","results":null,"errors":[{"code":5000,"msg":"boom"}],"status":"fatal"}"#;

    for chunk_size in 1..=body.len() {
        let (rows, metadata) = read_all(body, chunk_size);

        assert!(rows.is_empty(), "chunked {chunk_size} bytes at a time");
        assert_eq!(Value::from("fatal"), metadata["status"]);
        assert_eq!(Value::from(5000), metadata["errors"][0]["code"]);
    }
}

#[test]
fn an_escaped_key_is_read_as_what_it_stands_for() {
    let mut decoder = fed(b"{\"k\\u0065y\":1}");
    assert_eq!(token(&mut decoder), Token::Delim('{'));
    assert_eq!(token(&mut decoder), Token::String("key".to_string()));
}

#[test]
fn a_value_that_goes_on_asks_for_more() {
    let mut decoder = Decoder::new();
    decoder.feed(Bytes::from_static(b"{\"a\":"));
    assert!(matches!(decoder.decode(), Polled::NeedChunk));
    decoder.feed(Bytes::from_static(b"[1,2]} "));
    assert_eq!(ready(decoder.decode()).unwrap(), &b"{\"a\":[1,2]}"[..]);
}

#[test]
fn what_is_no_json_is_refused_and_stays_refused() {
    let mut decoder = fed(b"{\"a\":x}");
    let first = ready(decoder.decode()).expect_err("no JSON");
    let second = ready(decoder.decode()).expect_err("still no JSON");
    assert_eq!(first.msg, second.msg);
}

#[test]
fn a_failed_transport_is_reported() {
    let mut decoder = Decoder::new();
    decoder.feed(Bytes::from_static(b"{\"a\":"));
    decoder.feed_error(Error::new_message_error("connection reset"));
    let err = ready(decoder.decode()).expect_err("the transport failed");
    assert!(err.msg.contains("connection reset"), "{}", err.msg);
}

#[test]
fn a_small_value_does_not_pin_its_chunk() {
    assert!(keeps_chunk(25, 100));
    assert!(!keeps_chunk(24, 100));
    assert!(keeps_chunk(0, 0));
}

#[test]
fn a_failed_value_gives_up_what_it_had_from_earlier_chunks() {
    let mut decoder = Decoder::new();
    decoder.feed(Bytes::from_static(b"[1, tr"));
    assert_eq!(token(&mut decoder), Token::Delim('['));
    assert_eq!(&ready(decoder.decode()).unwrap()[..], b"1");
    assert!(matches!(decoder.decode(), Polled::NeedChunk));
    decoder.feed(Bytes::from_static(b"] "));
    assert!(ready(decoder.decode()).is_err());
    assert!(!ready(decoder.more()), "the bracket is what is left");

    let mut decoder = Decoder::new();
    decoder.feed(Bytes::from_static(b"[tr"));
    assert_eq!(token(&mut decoder), Token::Delim('['));
    assert!(matches!(decoder.decode(), Polled::NeedChunk));
    decoder.feed(Bytes::from_static(b"u"));
    assert!(matches!(decoder.decode(), Polled::NeedChunk));
    decoder.feed_error(Error {
        msg: "reset".to_string(),
    });
    assert_eq!(ready(decoder.decode()).unwrap_err().msg, "reset");
    assert!(ready(decoder.more()), "the newest chunk is what is left");
}

#[test]
fn white_space_and_nesting_do_not_disturb_the_rows() {
    let body = " { \"a\" : [ 1 , 2 ] ,\n\"results\" : [ \"x\" , { \"y\" : [ ] } ,-1.5e3 ] , \"b\" : null , \"a\" : true } ";
    for size in 1..=body.len() {
        let mut streamer = RawJsonRowStreamer::new(Decoder::new(), "results");
        let mut chunks = body.as_bytes().chunks(size);
        let prelude = loop {
            match streamer.read_prelude() {
                Polled::Ready(prelude) => break prelude.unwrap(),
                Polled::NeedChunk => {
                    streamer.feed(Bytes::copy_from_slice(chunks.next().expect("a chunk")))
                }
            }
        };
        assert_eq!(prelude, b"{\"a\":[1,2]}");
        let mut rows = Vec::new();
        let metadata = loop {
            match streamer.next() {
                Polled::NeedChunk => {
                    streamer.feed(Bytes::copy_from_slice(chunks.next().expect("a chunk")))
                }
                Polled::Ready(Some(Ok(RawJsonRowItem::Row(row)))) => rows.push(row),
                Polled::Ready(Some(Ok(RawJsonRowItem::Metadata(metadata)))) => break metadata,
                Polled::Ready(Some(Err(e))) => panic!("{}", e.msg),
                Polled::Ready(None) => panic!("the rest of the attributes is due"),
            }
        };
        assert_eq!(rows, [&b"\"x\""[..], b"{ \"y\" : [ ] }", b"-1.5e3"]);
        assert_eq!(metadata, b"{\"a\":true,\"b\":null}");
        assert!(matches!(streamer.next(), Polled::Ready(None)));
    }
}
