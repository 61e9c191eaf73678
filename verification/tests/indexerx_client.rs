//! A connection to an indexer against a scripted server.
use std::collections::VecDeque;

use bytes::Bytes;
use couchbase_core::indexerx::client::{dial_failed, Action, Arrival, Client, ConnectOptions};
use couchbase_core::indexerx::error::{AuthCode, Error, ErrorKind, ServerError};
use couchbase_core::indexerx::proto::{
    Consistency, DataEncoding, ParseError, Projection, Request, ScanEntry, ScanOptions,
    PROTOBUF_VERSION,
};
use couchbase_core::indexerx::scan::{Drained, Finish, ScanStream, Step};
use couchbase_core::indexerx::span::{Filter, Inclusion, Scan};
use couchbase_core::indexerx::wire;

fn message(f: impl FnOnce(&mut wire::QueryPayload)) -> wire::QueryPayload {
    let mut p = wire::QueryPayload::blank(PROTOBUF_VERSION);
    f(&mut p);
    p
}

fn entries(rows: &[(Option<&'static [u8]>, &'static [u8])]) -> wire::QueryPayload {
    message(|p| {
        p.stream = Some(wire::ResponseStream {
            index_entries: rows
                .iter()
                .map(|(key, doc)| wire::IndexEntry {
                    entry_key: key.map(Bytes::from_static),
                    primary_key: Bytes::from_static(doc),
                })
                .collect(),
            err: None,
        });
    })
}

fn stream_error(text: &str) -> wire::QueryPayload {
    message(|p| {
        p.stream = Some(wire::ResponseStream {
            index_entries: vec![],
            err: Some(wire::Error {
                error: text.to_string(),
            }),
        });
    })
}

fn stream_end(read_units: Option<u64>) -> wire::QueryPayload {
    message(|p| {
        p.stream_end = Some(wire::StreamEndResponse {
            err: None,
            read_units,
        });
    })
}

fn auth_response(code: u32) -> wire::QueryPayload {
    message(|p| p.auth_response = Some(wire::AuthResponse { code }))
}

fn row(key: &'static [u8]) -> (Option<&'static [u8]>, &'static [u8]) {
    (None, key)
}

#[derive(Clone, Copy)]
enum Terminator {
    StreamEnd(Option<u64>),
    EndFrame,
}

#[derive(Clone, Copy)]
enum ScanEnding {
    Terminated(Terminator),
    AwaitEndStream,
    Truncated,
}

struct Script {
    responses: Vec<wire::QueryPayload>,
    ending: ScanEnding,
    after_end_stream: Vec<wire::QueryPayload>,
}

fn script(responses: Vec<wire::QueryPayload>) -> Script {
    Script {
        responses,
        ending: ScanEnding::Terminated(Terminator::StreamEnd(None)),
        after_end_stream: Vec::new(),
    }
}

struct Server {
    script: Script,
    count_replies: i64,
    requests: Vec<&'static str>,
    scan: Option<wire::ScanRequest>,
    sent: VecDeque<Arrival>,
}

impl Server {
    fn send(&mut self, payload: wire::QueryPayload) {
        self.sent.push_back(Arrival::Message(Ok(payload)));
    }

    fn terminate(&mut self, terminator: Terminator) {
        match terminator {
            Terminator::StreamEnd(units) => self.send(stream_end(units)),
            Terminator::EndFrame => self.sent.push_back(Arrival::EndFrame),
        }
    }

    fn receive(&mut self, request: &Request) {
        let payload = request.payload();
        if payload.auth_request.is_some() {
            self.requests.push("AuthRequest");
            self.send(auth_response(1));
        } else if payload.helo_request.is_some() {
            self.requests.push("HeloRequest");
            self.send(message(|p| {
                p.helo_response = Some(wire::HeloResponse { version: 11 })
            }));
            self.terminate(Terminator::StreamEnd(None));
        } else if payload.count_request.is_some() {
            self.requests.push("CountRequest");
            let count = self.count_replies;
            self.send(message(|p| {
                p.count_response = Some(wire::CountResponse { count, err: None })
            }));
            self.count_replies += 1;
            self.terminate(Terminator::StreamEnd(None));
        } else if let Some(scan) = &payload.scan_request {
            self.requests.push("ScanRequest");
            self.scan = Some(scan.clone());
            for response in self.script.responses.clone() {
                self.send(response);
            }
            match self.script.ending {
                ScanEnding::Terminated(terminator) => self.terminate(terminator),
                ScanEnding::AwaitEndStream => {}
                ScanEnding::Truncated => self.sent.push_back(Arrival::Closed),
            }
        } else if payload.end_stream.is_some() {
            self.requests.push("EndStreamRequest");
            for response in self.script.after_end_stream.clone() {
                self.send(response);
            }
            self.terminate(Terminator::StreamEnd(None));
        }
    }
}

/// A connection and the server at its far end.
struct Connection {
    client: Client,
    server: Server,
}

impl Connection {
    fn read(&mut self) -> Arrival {
        self.server.sent.pop_front().unwrap_or(Arrival::Closed)
    }

    /// Hands in what arrives until there is something to say.
    fn drive(&mut self) -> Action {
        loop {
            let arrived = self.read();
            match self.client.arrived(arrived) {
                Action::Send(request) => self.server.receive(&request),
                Action::Wait => {}
                other => return other,
            }
        }
    }

    fn count(&mut self) -> Result<i64, Error> {
        let request = self.client.count(1, Consistency::Session, vec![])?;
        self.server.receive(&request);
        match self.drive() {
            Action::Counted(count) => Ok(count),
            Action::Fail(e) => Err(e),
            _ => panic!("a count ends in a count"),
        }
    }

    fn scan(mut self, opts: ScanOptions) -> ScanStream<Connection> {
        let request = self.client.scan(opts).expect("ready");
        self.server.receive(&request);
        ScanStream::new(self)
    }
}

fn connect(script: Script) -> Connection {
    let (client, auth) = Client::connect(&ConnectOptions::new("user", "pass"));
    let mut connection = Connection {
        client,
        server: Server {
            script,
            count_replies: 0,
            requests: Vec::new(),
            scan: None,
            sent: VecDeque::new(),
        },
    };
    connection.server.receive(&auth);
    assert!(matches!(connection.drive(), Action::Connected));
    connection
}

fn next(stream: &mut ScanStream<Connection>) -> Option<Result<ScanEntry, Error>> {
    loop {
        match stream.next() {
            Step::Entry(entry) => return Some(Ok(entry)),
            Step::End => return None,
            Step::ReadFrame => {
                let arrived = stream.client_mut().expect("a connection").read();
                if let Err(e) = stream.arrived(arrived) {
                    return Some(Err(e));
                }
            }
        }
    }
}

fn finish(stream: ScanStream<Connection>) -> Result<Connection, Error> {
    let mut draining = match stream.finish() {
        Finish::Recovered(connection) => return Ok(connection),
        Finish::Lost(e) => return Err(e),
        Finish::Drain(draining) => draining,
        Finish::Stop(mut draining, request) => {
            draining.client_mut().server.receive(&request);
            draining
        }
    };
    loop {
        let arrived = draining.client_mut().read();
        draining = match draining.arrived(arrived) {
            Drained::Recovered(connection, _) => return Ok(connection),
            Drained::More(draining) => draining,
            Drained::Lost(e) => return Err(e),
        };
    }
}

#[test]
fn connecting_authenticates_then_exchanges_versions() {
    let connection = connect(script(vec![]));

    assert_eq!(connection.client.server_version(), 11);
    assert_eq!(
        connection.server.requests,
        vec!["AuthRequest", "HeloRequest"],
        "auth is always first, and Helo follows it"
    );
}

#[test]
fn two_exchanges_on_one_connection_do_not_desynchronise() {
    let mut connection = connect(script(vec![]));

    let first = connection.count().expect("first count");
    let second = connection.count().expect("second count");

    assert_eq!((first, second), (0, 1), "each count got its own reply");
}

#[test]
fn a_scan_yields_every_entry_in_order_across_batches() {
    let mut script = script(vec![
        entries(&[row(b"doc-1"), row(b"doc-2")]),
        entries(&[]),
        entries(&[row(b"doc-3")]),
    ]);
    script.ending = ScanEnding::Terminated(Terminator::StreamEnd(Some(42)));
    let mut stream = connect(script).scan(ScanOptions::new(7, "req-1"));

    let mut keys = Vec::new();
    while let Some(entry) = next(&mut stream) {
        keys.push(entry.expect("entry").primary_key);
    }

    assert_eq!(keys, vec![&b"doc-1"[..], &b"doc-2"[..], &b"doc-3"[..]]);
    assert!(stream.is_ended());
    assert_eq!(stream.read_units(), Some(42));
    finish(stream).expect("the connection comes back");
}

#[test]
fn entry_keys_survive_the_round_trip() {
    let mut stream = connect(script(vec![entries(&[(Some(b"[3,5]"), b"doc-1")])]))
        .scan(ScanOptions::new(7, "req-1"));
    let entry = next(&mut stream).expect("an entry").expect("no error");

    assert_eq!(entry.entry_key.as_deref(), Some(&b"[3,5]"[..]));
    assert_eq!(entry.primary_key, &b"doc-1"[..]);
}

#[test]
fn abandoning_a_scan_stops_the_server_and_recovers_the_connection() {
    let script = Script {
        responses: vec![entries(&[row(b"doc-1"), row(b"doc-2"), row(b"doc-3")])],
        ending: ScanEnding::AwaitEndStream,
        after_end_stream: vec![entries(&[row(b"doc-4")])],
    };
    let mut stream = connect(script).scan(ScanOptions::new(7, "req-1"));
    let first = next(&mut stream).expect("an entry").expect("no error");
    assert_eq!(first.primary_key, &b"doc-1"[..]);

    let mut connection = finish(stream).expect("the connection comes back");

    assert!(
        connection.server.requests.contains(&"EndStreamRequest"),
        "the server was asked to stop"
    );
    connection
        .count()
        .expect("the recovered connection still works");
}

#[test]
fn an_indexer_error_ends_the_scan_but_not_the_connection() {
    let mut stream = connect(script(vec![
        entries(&[row(b"doc-1")]),
        stream_error("Not my partition"),
    ]))
    .scan(ScanOptions::new(7, "req-1"));

    assert_eq!(
        next(&mut stream)
            .expect("an entry")
            .expect("no error")
            .primary_key,
        &b"doc-1"[..]
    );

    match next(&mut stream) {
        Some(Err(e)) => match e.kind() {
            ErrorKind::Server(e @ ServerError::NotMyPartition(_)) => {
                assert!(e.is_retryable_after_refresh());
            }
            other => panic!("expected a not-my-partition error, got {other:?}"),
        },
        other => panic!("expected a not-my-partition error, got {other:?}"),
    }
    assert!(
        next(&mut stream).is_none(),
        "an error ends the stream rather than preceding more rows"
    );
    assert!(!stream.is_ended(), "it did not end, it was refused");
    assert!(stream.take_if_ended().is_none());

    let mut connection = finish(stream).expect("the connection comes back");
    assert!(!connection.server.requests.contains(&"EndStreamRequest"));
    connection
        .count()
        .expect("the recovered connection still works");
}

#[test]
fn a_truncated_stream_is_an_error_and_not_an_end() {
    let mut script = script(vec![entries(&[row(b"doc-1")])]);
    script.ending = ScanEnding::Truncated;
    let mut stream = connect(script).scan(ScanOptions::new(7, "req-1"));
    next(&mut stream).expect("an entry").expect("no error");

    match next(&mut stream) {
        Some(Err(e)) if matches!(e.kind(), ErrorKind::UnexpectedEof) => {}
        other => panic!("expected an unexpected-eof, got {other:?}"),
    }
    assert!(
        finish(stream).is_err(),
        "a broken connection is not handed back"
    );
}

#[test]
fn an_old_servers_end_frame_still_ends_the_stream() {
    let mut script = script(vec![entries(&[row(b"doc-1")])]);
    script.ending = ScanEnding::Terminated(Terminator::EndFrame);
    let mut stream = connect(script).scan(ScanOptions::new(7, "req-1"));
    next(&mut stream).expect("an entry").expect("no error");

    assert!(next(&mut stream).is_none());
    assert!(stream.is_ended());
    assert!(stream.take_if_ended().is_some());
    assert!(stream.take_if_ended().is_none(), "only once");
    assert!(finish(stream).is_err(), "it was given back before");
}

#[test]
fn the_scan_request_says_what_the_options_asked_for() {
    let mut opts = ScanOptions::new(8891, "req-42");
    opts.partitions = vec![1, 2];
    opts.consistency = Consistency::Session;
    opts.offset = 10;
    opts.limit = 50;
    opts.distinct = true;
    opts.data_encoding = DataEncoding::Json;
    opts.projection = Some(Projection::keys_and(vec![0, 1]));
    opts.scans = vec![
        Scan::filtered(vec![
            Filter::eq(b"3".to_vec()),
            Filter::range(b"5".to_vec(), b"9".to_vec()).with_inclusion(Inclusion::Low),
        ]),
        Scan::equals(vec![b"1".to_vec(), b"2".to_vec()]),
    ];

    let stream = connect(script(vec![])).scan(opts);
    let connection = finish(stream).expect("finish");
    let sent = connection
        .server
        .scan
        .expect("a scan request reached the server");

    assert_eq!(sent.defn_id, 8891);
    assert_eq!(sent.request_id.as_deref(), Some("req-42"));
    assert_eq!(sent.partition_ids, vec![1, 2]);
    assert_eq!(sent.cons, 2, "Session is request_plus");
    assert_eq!(sent.offset, Some(10));
    assert_eq!(sent.limit, 50);
    assert!(sent.distinct);
    assert_eq!(
        sent.data_enc_fmt,
        Some(0),
        "JSON, so no collatejson decoder"
    );
    assert_eq!(
        sent.reverse, None,
        "never set: the indexer parses it and never reads it"
    );
    let projection = sent.indexprojection.expect("a projection");
    assert_eq!(projection.entry_keys, vec![0, 1]);
    assert_eq!(projection.primary_key, Some(true));

    let filters: Vec<_> = sent.scans[0]
        .filters
        .iter()
        .map(|f| (f.low.clone(), f.high.clone(), f.inclusion))
        .collect();
    assert_eq!(
        filters,
        vec![
            (Some(b"3".to_vec()), Some(b"3".to_vec()), 3),
            (Some(b"5".to_vec()), Some(b"9".to_vec()), 1),
        ],
        "an equality is an inclusive range; Low is inclusion 1"
    );
    assert_eq!(
        sent.scans[1].equals,
        vec![b"1".to_vec(), b"2".to_vec()],
        "the second span pins the whole key"
    );
}

#[test]
fn an_unbounded_end_is_omitted_rather_than_sent_as_a_sentinel() {
    let mut opts = ScanOptions::new(1, "req-1");
    opts.scans = vec![Scan::filtered(vec![Filter {
        low: Some(b"5".to_vec()),
        high: None,
        inclusion: Inclusion::Low,
    }])];

    let stream = connect(script(vec![])).scan(opts);
    let connection = finish(stream).expect("finish");
    let sent = connection.server.scan.expect("scan");

    let f = &sent.scans[0].filters[0];
    assert_eq!(
        (f.low.clone(), f.high.clone(), f.inclusion),
        (Some(b"5".to_vec()), None, 1)
    );
}

#[test]
fn bad_credentials_fail_the_connection_rather_than_the_first_request() {
    let (mut client, auth) = Client::connect(&ConnectOptions::new("user", "wrong"));
    let sent = auth.payload().auth_request.as_ref().expect("credentials");
    assert_eq!((sent.user.as_str(), sent.pass.as_str()), ("user", "wrong"));
    assert_eq!(sent.client_version, Some(11));

    match client.arrived(Arrival::Message(Ok(auth_response(2)))) {
        Action::Fail(e) if matches!(e.kind(), ErrorKind::Authentication(AuthCode::Failure)) => {
            assert!(e.source().is_none())
        }
        Action::Fail(other) => panic!("expected an authentication failure, got {other:?}"),
        _ => panic!("expected an authentication failure"),
    }
    assert!(client.count(1, Consistency::Any, vec![]).is_err());
}

#[test]
fn a_request_on_a_busy_connection_is_refused() {
    let mut client = Client::ready(11);
    client
        .count(1, Consistency::Any, vec![])
        .expect("the connection is idle");
    let err = client
        .count(1, Consistency::Any, vec![])
        .expect_err("a count is outstanding");
    assert!(matches!(err.kind(), ErrorKind::Busy));
    let err = client
        .scan(ScanOptions::new(1, "r"))
        .expect_err("a count is outstanding");
    assert!(matches!(err.kind(), ErrorKind::Busy));
}

#[test]
fn an_answer_without_its_terminator_is_an_error() {
    let mut client = Client::ready(11);
    client
        .count(1, Consistency::Any, vec![])
        .expect("the connection is idle");
    let count = message(|p| {
        p.count_response = Some(wire::CountResponse {
            count: 5,
            err: None,
        })
    });
    assert!(matches!(
        client.arrived(Arrival::Message(Ok(count.clone()))),
        Action::Wait
    ));
    match client.arrived(Arrival::Message(Ok(count))) {
        Action::Fail(e) => assert_eq!(
            e.kind(),
            &ErrorKind::Parse(ParseError::UnexpectedMessage {
                expected: "StreamEndResponse",
                got: "CountResponse",
            })
        ),
        _ => panic!("the terminator did not come"),
    }
}

#[test]
fn a_terminator_where_an_answer_belongs_is_an_error() {
    let mut client = Client::ready(11);
    client
        .count(1, Consistency::Any, vec![])
        .expect("the connection is idle");
    match client.arrived(Arrival::EndFrame) {
        Action::Fail(e) => assert!(matches!(e.kind(), ErrorKind::UnexpectedEof)),
        _ => panic!("the server did not answer"),
    }
}

#[test]
fn an_unexpected_message_breaks_a_stream_and_a_drain() {
    let auth = || Arrival::Message(Ok(auth_response(1)));
    let mut stream = ScanStream::new(5u8);
    assert!(matches!(stream.next(), Step::ReadFrame));
    let err = stream.arrived(auth()).expect_err("not a row");
    assert_eq!(
        err.kind(),
        &ErrorKind::Parse(ParseError::UnexpectedMessage {
            expected: "ResponseStream",
            got: "AuthResponse",
        })
    );
    assert!(matches!(stream.finish(), Finish::Lost(_)));

    let Finish::Stop(draining, _) = ScanStream::new(5u8).finish() else {
        panic!("the scan is still streaming");
    };
    assert!(matches!(draining.arrived(auth()), Drained::Lost(_)));
}

#[test]
fn a_failed_dial_says_which_transport_it_was() {
    let err = dial_failed(true, "refused".to_string());
    assert_eq!(
        err.kind(),
        &ErrorKind::Connect {
            msg: "failed to establish TLS to the queryport".to_string()
        }
    );
    assert_eq!(err.source().map(String::as_str), Some("refused"));
    let err = dial_failed(false, "refused".to_string());
    assert_eq!(
        err.kind(),
        &ErrorKind::Connect {
            msg: "failed to open a socket to the queryport".to_string()
        }
    );
}
