//! One authenticated connection to an indexer's scan port: what is sent, and
//! what an answer means.
//!
//! A connection serves one exchange at a time. Every exchange but
//! authentication is ended by a terminator behind its answer, which has to be
//! read too: left in the socket, the next exchange would take it for its
//! answer. Two terminators are accepted, a message and a bare end frame.
//!
//! The socket itself is the program's. It sends what a [`Client`] asks it to
//! send and hands in what arrives.
use std::time::Duration;
use vstd::prelude::*;
use crate::authenticator::TlsConfig;
use crate::duration::{nanos_in, seconds};
use crate::indexerx::error::{AuthCode, Error, ErrorKind};
use crate::indexerx::packet_codec::DEFAULT_MAX_PAYLOAD;
use crate::indexerx::proto::{
    decode_response, says, Consistency, ParseError, Request, Response, ScanOptions,
    PROTOBUF_VERSION,
};
use crate::indexerx::wire::QueryPayload;
use crate::text::owned;

verus! {

/// The client version reported during authentication. The server decides by it
/// what it may send.
pub const CLIENT_VERSION: u32 = 11;

/// How long a dial and its handshake may take by default, in seconds.
pub const DEFAULT_CONNECT_TIMEOUT: u64 = 10;

/// The default keep-alive time, in seconds.
pub const DEFAULT_TCP_KEEP_ALIVE_TIME: u64 = 60;

#[derive(Debug, Clone)]
pub struct ConnectOptions {
    pub username: String,
    pub password: String,
    /// The ceiling on a single response frame.
    pub max_payload: usize,
    /// `Some` to speak TLS, `None` for a plain socket. The port is the same.
    pub tls_config: Option<TlsConfig>,
    pub connect_timeout: Duration,
    pub tcp_keep_alive_time: Duration,
}

impl ConnectOptions {
    pub fn new(username: &str, password: &str) -> (r: Self)
        ensures
            r.username@ == username@,
            r.password@ == password@,
            r.max_payload == DEFAULT_MAX_PAYLOAD,
            r.tls_config is None,
            nanos_in(r.connect_timeout) == DEFAULT_CONNECT_TIMEOUT * 1_000_000_000,
            nanos_in(r.tcp_keep_alive_time) == DEFAULT_TCP_KEEP_ALIVE_TIME * 1_000_000_000,
    {
        ConnectOptions {
            username: owned(username),
            password: owned(password),
            max_payload: DEFAULT_MAX_PAYLOAD,
            tls_config: None,
            connect_timeout: seconds(DEFAULT_CONNECT_TIMEOUT),
            tcp_keep_alive_time: seconds(DEFAULT_TCP_KEEP_ALIVE_TIME),
        }
    }

    pub fn with_tls_config(self, tls_config: Option<TlsConfig>) -> (r: Self)
        ensures
            r == (ConnectOptions { tls_config, ..self }),
    {
        ConnectOptions { tls_config, ..self }
    }
}

/// The error that a failed dial becomes.
pub fn dial_failed(over_tls: bool, source: String) -> (r: Error)
    ensures
        r.spec_kind() matches ErrorKind::Connect { msg } && msg@ == (if over_tls {
            "failed to establish TLS to the queryport"@
        } else {
            "failed to open a socket to the queryport"@
        }),
        r.source_text() == Some(source@),
{
    if over_tls {
        Error::new_connect_error("failed to establish TLS to the queryport", source)
    } else {
        Error::new_connect_error("failed to open a socket to the queryport", source)
    }
}

/// What came out of the socket.
pub enum Arrival {
    /// A frame with a payload, decoded, or what the decoder said of it.
    Message(Result<QueryPayload, String>),
    /// The end-of-response marker.
    EndFrame,
    /// The socket was closed.
    Closed,
    /// The socket or the framing broke.
    Broken(Error),
}

/// `e` is the error of a connection that ended before it should have.
pub open spec fn is_eof(e: Error) -> bool {
    e.spec_kind() == ErrorKind::UnexpectedEof && e.source_text() is None
}

/// Whether `r` is what a decoded or undecodable payload means.
pub open spec fn is_reading(m: Result<QueryPayload, String>, r: Result<Response, Error>) -> bool {
    match m {
        Err(text) => r matches Err(e) && e.spec_kind() == ErrorKind::Parse(
            ParseError::Undecodable(text),
        ) && e.source_text() is None,
        Ok(p) => if p.version != PROTOBUF_VERSION {
            r matches Err(e) && e.spec_kind() == ErrorKind::Parse(
                ParseError::UnsupportedVersion { got: p.version, expected: PROTOBUF_VERSION },
            ) && e.source_text() is None
        } else {
            says(p, r)
        },
    }
}

/// Whether `r` is the response that arrived. A terminator where a response
/// belongs is a connection out of step.
pub open spec fn is_response(a: Arrival, r: Result<Response, Error>) -> bool {
    match a {
        Arrival::Message(m) => is_reading(m, r),
        Arrival::EndFrame => r matches Err(e) && is_eof(e),
        Arrival::Closed => r matches Err(e) && is_eof(e),
        Arrival::Broken(e) => r == Err::<Response, Error>(e),
    }
}

/// Reads the response to a request.
pub fn read_response(a: Arrival) -> (r: Result<Response, Error>)
    ensures
        is_response(a, r),
{
    match a {
        Arrival::Message(m) => decode_response(m),
        Arrival::EndFrame => Err(Error::new_unexpected_eof_error()),
        Arrival::Closed => Err(Error::new_unexpected_eof_error()),
        Arrival::Broken(e) => Err(e),
    }
}

/// Whether the message is well-formed and ends a stream without an error.
pub open spec fn is_stream_end(p: QueryPayload) -> bool {
    &&& p.version == PROTOBUF_VERSION
    &&& p.stream is None
    &&& p.stream_end matches Some(end)
    &&& crate::indexerx::proto::refusal(end.err) is None
}

/// Whether what arrived ends an exchange.
pub open spec fn is_terminator(a: Arrival) -> bool {
    match a {
        Arrival::EndFrame => true,
        Arrival::Message(Ok(p)) => is_stream_end(p),
        _ => false,
    }
}

/// Reads the frame that ends an exchange, and insists that it is one. Anything
/// else means that the connection is out of step, which is an error even with
/// the answer in hand.
pub fn consume_terminator(a: Arrival) -> (r: Result<(), Error>)
    ensures
        r is Ok <==> is_terminator(a),
        r matches Err(e) ==> match a {
            Arrival::EndFrame => false,
            Arrival::Closed => is_eof(e),
            Arrival::Broken(broken) => e == broken,
            Arrival::Message(m) => is_reading(m, Err(e)) || exists|other: Response|
                #[trigger] is_reading(m, Ok(other)) && is_unexpected(
                    e,
                    "StreamEndResponse"@,
                    other,
                ),
        },
{
    match a {
        Arrival::EndFrame => Ok(()),
        Arrival::Closed => Err(Error::new_unexpected_eof_error()),
        Arrival::Broken(e) => Err(e),
        Arrival::Message(m) => {
            match decode_response(m) {
                Ok(Response::StreamEnd { read_units: _ }) => Ok(()),
                Ok(other) => {
                    let ghost seen = other;
                    assert(is_reading(m, Ok::<Response, Error>(seen)));
                    Err(unexpected("StreamEndResponse", &other))
                },
                Err(e) => {
                    assert(is_reading(m, Err::<Response, Error>(e)));
                    Err(e)
                },
            }
        },
    }
}

/// `e` says that `got` turned up where another message was expected.
pub open spec fn is_unexpected(e: Error, expected: Seq<char>, got: Response) -> bool {
    &&& e.spec_kind() matches ErrorKind::Parse(
        ParseError::UnexpectedMessage { expected: wanted, got: name },
    )
    &&& wanted@ == expected
    &&& name@ == got.kind_name()
    &&& e.source_text() is None
}

/// The error of a message that is not the expected one.
pub fn unexpected(expected: &'static str, got: &Response) -> (r: Error)
    ensures
        is_unexpected(r, expected@, *got),
{
    Error::new_parse_error(ParseError::UnexpectedMessage { expected, got: got.kind() })
}

/// What a connection is waiting for.
#[derive(Debug, Clone, Copy, PartialEq, Eq, Structural)]
pub enum Stage {
    /// The answer to the credentials.
    Authenticating,
    /// The server's version.
    Greeting,
    /// The terminator behind the version.
    GreetingEnd(u32),
    /// Nothing: a request may be sent.
    Idle,
    /// A count.
    Counting,
    /// The terminator behind the count.
    CountingEnd(i64),
    /// Nothing: the handshake failed, and no connection came of it.
    Lost,
}

/// What is to be done next.
pub enum Action {
    /// Send this, then hand in what arrives.
    Send(Request),
    /// Hand in what arrives.
    Wait,
    /// The connection is ready for requests.
    Connected,
    /// The answer to a count.
    Counted(i64),
    /// The exchange failed. What is left of its answer may still arrive, so
    /// the connection is not one to pool.
    Fail(Error),
}

/// The protocol's side of a connection.
pub struct Client {
    server_version: u32,
    stage: Stage,
}

impl Client {
    pub closed spec fn spec_version(&self) -> u32 {
        self.server_version
    }

    pub closed spec fn stage(&self) -> Stage {
        self.stage
    }

    /// A connection that was just opened. Credentials are always the first
    /// thing sent.
    pub fn connect(opts: &ConnectOptions) -> (r: (Client, Request))
        ensures
            r.0.spec_version() == 0,
            r.0.stage() == Stage::Authenticating,
            r.1@.auth_request matches Some(auth) && auth.user@ == opts.username@ && auth.pass@
                == opts.password@ && auth.client_version == Some(CLIENT_VERSION),
            r.1@ == (QueryPayload {
                auth_request: r.1@.auth_request,
                ..crate::indexerx::wire::blank_payload(PROTOBUF_VERSION)
            }),
    {
        (
            Client { server_version: 0, stage: Stage::Authenticating },
            Request::auth(opts.username.as_str(), opts.password.as_str(), CLIENT_VERSION),
        )
    }

    /// A connection on which this version was already agreed.
    pub fn ready(server_version: u32) -> (r: Client)
        ensures
            r.spec_version() == server_version,
            r.stage() == Stage::Idle,
    {
        Client { server_version, stage: Stage::Idle }
    }

    /// The version the server reported, 0 before it did.
    pub fn server_version(&self) -> (r: u32)
        ensures
            r == self.spec_version(),
    {
        self.server_version
    }

    /// Asks for the number of entries in an index. A connection that is not
    /// ready for a request refuses.
    pub fn count(&mut self, defn_id: u64, consistency: Consistency, partitions: Vec<u64>) -> (r:
        Result<Request, Error>)
        ensures
            final(self).spec_version() == old(self).spec_version(),
            old(self).stage() == Stage::Idle ==> {
                &&& final(self).stage() == Stage::Counting
                &&& r matches Ok(request)
                &&& request@.count_request matches Some(count)
                &&& count.defn_id == defn_id
                &&& count.span.is_unbounded()
                &&& count.cons == consistency.wire_value()
                &&& consistency.sends(count.ts_vector)
                &&& count.partition_ids == partitions
                &&& request@ == (QueryPayload {
                    count_request: Some(count),
                    ..crate::indexerx::wire::blank_payload(PROTOBUF_VERSION)
                })
            },
            old(self).stage() != Stage::Idle ==> final(self).stage() == old(self).stage() && (
            r matches Err(e) && e.spec_kind() == ErrorKind::Busy && e.source_text() is None),
    {
        if self.stage != Stage::Idle {
            return Err(Error::new_busy_error());
        }
        self.stage = Stage::Counting;
        Ok(Request::count_all(defn_id, consistency, partitions))
    }

    /// Asks for a scan, to whose stream the connection then belongs. A
    /// connection that is not ready for a request refuses.
    pub fn scan(&self, opts: ScanOptions) -> (r: Result<Request, Error>)
        ensures
            self.stage() == Stage::Idle ==> {
                &&& r matches Ok(request)
                &&& request@.scan_request matches Some(scan)
                &&& crate::indexerx::proto::asks_for(scan, opts)
                &&& request@ == (QueryPayload {
                    scan_request: Some(scan),
                    ..crate::indexerx::wire::blank_payload(PROTOBUF_VERSION)
                })
            },
            self.stage() != Stage::Idle ==> (r matches Err(e) && e.spec_kind() == ErrorKind::Busy
                && e.source_text() is None),
    {
        if self.stage != Stage::Idle {
            return Err(Error::new_busy_error());
        }
        Ok(Request::scan(opts))
    }

    /// Takes what arrived and says what to do next.
    pub fn arrived(&mut self, a: Arrival) -> (r: Action)
        ensures
            is_advance(
                (old(self).stage(), old(self).spec_version()),
                a,
                (final(self).stage(), final(self).spec_version()),
                r,
            ),
    {
        match self.stage {
            Stage::Authenticating => {
                let response: Response = match read_response(a) {
                    Ok(response) => response,
                    Err(e) => {
                        self.stage = Stage::Lost;
                        return Action::Fail(e);
                    },
                };
                assert(is_response(a, Ok::<Response, Error>(response)));
                match response.expect_kind("AuthResponse") {
                    Ok(Response::Auth(code)) => {
                        if code == AuthCode::Success {
                            self.stage = Stage::Greeting;
                            Action::Send(Request::helo())
                        } else {
                            self.stage = Stage::Lost;
                            Action::Fail(Error::new_authentication_error(code))
                        }
                    },
                    Ok(other) => {
                        proof {
                            lemma_kind_names(other);
                        }
                        self.stage = Stage::Lost;
                        Action::Fail(unexpected("AuthResponse", &other))
                    },
                    Err(e) => {
                        self.stage = Stage::Lost;
                        Action::Fail(e)
                    },
                }
            },
            Stage::Greeting => {
                let response: Response = match read_response(a) {
                    Ok(response) => response,
                    Err(e) => {
                        self.stage = Stage::Lost;
                        return Action::Fail(e);
                    },
                };
                assert(is_response(a, Ok::<Response, Error>(response)));
                match response.expect_kind("HeloResponse") {
                    Ok(Response::Helo { version }) => {
                        self.stage = Stage::GreetingEnd(version);
                        Action::Wait
                    },
                    Ok(other) => {
                        proof {
                            lemma_kind_names(other);
                        }
                        self.stage = Stage::Lost;
                        Action::Fail(unexpected("HeloResponse", &other))
                    },
                    Err(e) => {
                        self.stage = Stage::Lost;
                        Action::Fail(e)
                    },
                }
            },
            Stage::GreetingEnd(version) => {
                match consume_terminator(a) {
                    Ok(_) => {
                        self.server_version = version;
                        self.stage = Stage::Idle;
                        Action::Connected
                    },
                    Err(e) => {
                        self.stage = Stage::Lost;
                        Action::Fail(e)
                    },
                }
            },
            Stage::Counting => {
                let response: Response = match read_response(a) {
                    Ok(response) => response,
                    Err(e) => {
                        self.stage = Stage::Idle;
                        return Action::Fail(e);
                    },
                };
                assert(is_response(a, Ok::<Response, Error>(response)));
                match response.expect_kind("CountResponse") {
                    Ok(Response::Count(count)) => {
                        self.stage = Stage::CountingEnd(count);
                        Action::Wait
                    },
                    Ok(other) => {
                        proof {
                            lemma_kind_names(other);
                        }
                        self.stage = Stage::Idle;
                        Action::Fail(unexpected("CountResponse", &other))
                    },
                    Err(e) => {
                        self.stage = Stage::Idle;
                        Action::Fail(e)
                    },
                }
            },
            Stage::CountingEnd(count) => {
                match consume_terminator(a) {
                    Ok(_) => {
                        self.stage = Stage::Idle;
                        Action::Counted(count)
                    },
                    Err(e) => {
                        self.stage = Stage::Idle;
                        Action::Fail(e)
                    },
                }
            },
            Stage::Idle => Action::Fail(Error::new_unexpected_eof_error()),
            Stage::Lost => Action::Fail(Error::new_unexpected_eof_error()),
        }
    }
}

/// The names of the responses tell them apart.
proof fn lemma_kind_names(r: Response)
    ensures
        r.kind_name() == "AuthResponse"@ <==> r is Auth,
        r.kind_name() == "HeloResponse"@ <==> r is Helo,
        r.kind_name() == "CountResponse"@ <==> r is Count,
        r.kind_name() == "StreamEndResponse"@ <==> r is StreamEnd,
        r.kind_name() == "ResponseStream"@ <==> r is Entries,
{
    reveal_strlit("AuthResponse");
    reveal_strlit("HeloResponse");
    reveal_strlit("CountResponse");
    reveal_strlit("StreamEndResponse");
    reveal_strlit("ResponseStream");
    assert("AuthResponse"@[0] == 'A');
    assert("HeloResponse"@[0] == 'H');
    assert("CountResponse"@[0] == 'C');
    assert("StreamEndResponse"@[0] == 'S');
    assert("ResponseStream"@[0] == 'R');
}

/// The failure of an exchange that did not get its answer: the answer was an
/// error, or another message than the one due.
pub open spec fn is_missed(e: Error, a: Arrival, expected: Seq<char>) -> bool {
    is_response(a, Err(e)) || exists|other: Response|
        #[trigger] is_response(a, Ok(other)) && other.kind_name() != expected && is_unexpected(
            e,
            expected,
            other,
        )
}

/// `e` is the failure of an exchange whose terminator did not come.
pub open spec fn is_unended(e: Error, a: Arrival) -> bool {
    match a {
        Arrival::EndFrame => false,
        Arrival::Closed => is_eof(e),
        Arrival::Broken(broken) => e == broken,
        Arrival::Message(m) => is_reading(m, Err(e)) || exists|other: Response|
            #[trigger] is_reading(m, Ok(other)) && is_unexpected(
                e,
                "StreamEndResponse"@,
                other,
            ),
    }
}

/// One step of a connection: from where it stands, with what arrived, to where
/// it stands then and what is to be done. Credentials have to be accepted, then
/// the version is exchanged; an answer counts only once its terminator has been
/// read behind it.
pub open spec fn is_advance(from: (Stage, u32), a: Arrival, to: (Stage, u32), r: Action) -> bool {
    let lost = to == (Stage::Lost, from.1);
    let failed = to == (Stage::Idle, from.1);
    match from.0 {
        Stage::Authenticating => {
            ||| is_response(a, Ok(Response::Auth(AuthCode::Success))) && to == (
                Stage::Greeting,
                from.1,
            ) && (r matches Action::Send(request) && request@ == (QueryPayload {
                helo_request: Some(
                    crate::indexerx::wire::HeloRequest { version: PROTOBUF_VERSION },
                ),
                ..crate::indexerx::wire::blank_payload(PROTOBUF_VERSION)
            }))
            ||| lost && (r matches Action::Fail(e) && (is_missed(e, a, "AuthResponse"@) || exists|
                code: AuthCode,
            |
                code != AuthCode::Success && #[trigger] is_response(a, Ok(Response::Auth(code)))
                    && e.spec_kind() == ErrorKind::Authentication(code) && e.source_text() is None))
        },
        Stage::Greeting => {
            ||| exists|version: u32|
                #[trigger] is_response(a, Ok(Response::Helo { version })) && to == (
                    Stage::GreetingEnd(version),
                    from.1,
                ) && r is Wait
            ||| lost && (r matches Action::Fail(e) && is_missed(e, a, "HeloResponse"@))
        },
        Stage::GreetingEnd(version) => if is_terminator(a) {
            to == (Stage::Idle, version) && r is Connected
        } else {
            lost && (r matches Action::Fail(e) && is_unended(e, a))
        },
        Stage::Counting => {
            ||| exists|count: i64|
                #[trigger] is_response(a, Ok(Response::Count(count))) && to == (
                    Stage::CountingEnd(count),
                    from.1,
                ) && r is Wait
            ||| failed && (r matches Action::Fail(e) && is_missed(e, a, "CountResponse"@))
        },
        Stage::CountingEnd(count) => if is_terminator(a) {
            to == (Stage::Idle, from.1) && r == Action::Counted(count)
        } else {
            failed && (r matches Action::Fail(e) && is_unended(e, a))
        },
        Stage::Idle => failed && (r matches Action::Fail(e) && is_eof(e)),
        Stage::Lost => lost && (r matches Action::Fail(e) && is_eof(e)),
    }
}

/// An answer is given out, and a connection made ready, only once the
/// terminator behind it has been read.
pub proof fn an_answer_counts_only_behind_its_terminator(
    from: (Stage, u32),
    a: Arrival,
    to: (Stage, u32),
    r: Action,
)
    requires
        is_advance(from, a, to, r),
        r is Connected || r is Counted,
    ensures
        is_terminator(a),
        to.0 == Stage::Idle,
{
}

/// Nothing is sent on a connection after its credentials but for the server
/// having accepted them.
pub proof fn nothing_follows_refused_credentials(
    from: (Stage, u32),
    a: Arrival,
    to: (Stage, u32),
    r: Action,
)
    requires
        is_advance(from, a, to, r),
        from.0 == Stage::Authenticating,
        !is_response(a, Ok(Response::Auth(AuthCode::Success))),
    ensures
        r is Fail,
        to.0 == Stage::Lost,
{
}

/// What ends an exchange: the marker, or a message of version 1 that carries no
/// rows and says that the stream ended, with no error text beside it.
pub proof fn what_ends_an_exchange(a: Arrival)
    ensures
        is_terminator(a) <==> match a {
            Arrival::EndFrame => true,
            Arrival::Message(Ok(p)) => p.version == 1 && p.stream is None && p.stream_end is Some
                && (p.stream_end->0.err is None || p.stream_end->0.err->0.error@.len() == 0),
            _ => false,
        },
{
}

/// A message of another version than 1 is refused whatever it carries, and one
/// that could not be decoded is refused with what the decoder said.
pub proof fn only_version_one_is_spoken(
    m: Result<QueryPayload, String>,
    r: Result<Response, Error>,
)
    requires
        is_reading(m, r),
    ensures
        m matches Err(text) ==> (r matches Err(e) && e.spec_kind() == ErrorKind::Parse(
            ParseError::Undecodable(text),
        )),
        m matches Ok(p) ==> (p.version != 1 ==> (r matches Err(e) && e.spec_kind()
            == ErrorKind::Parse(
            ParseError::UnsupportedVersion { got: p.version, expected: 1 },
        ))),
        m matches Ok(p) ==> (p.version == 1 ==> says(p, r)),
{
}

/// How a connection comes about: the answer to the credentials has to be code 1
/// and is followed by the greeting, the server's version is the one in its
/// greeting, and behind its terminator the connection is ready under that
/// version. Any other code ends it.
pub proof fn a_connection_comes_about_step_by_step(
    from: (Stage, u32),
    a: Arrival,
    to: (Stage, u32),
    r: Action,
)
    requires
        is_advance(from, a, to, r),
    ensures
        from.0 == Stage::Authenticating ==> (a matches Arrival::Message(Ok(p)) ==> (p.version == 1
            && p.stream is None && p.stream_end is None && p.count_response is None
            && p.auth_response is Some ==> {
            &&& p.auth_response->0.code == 1 ==> to == (Stage::Greeting, from.1) && (
            r matches Action::Send(request) && request@.version == 1 && request@.helo_request
                is Some && request@.helo_request->0.version == 1)
            &&& p.auth_response->0.code != 1 ==> to == (Stage::Lost, from.1) && (
            r matches Action::Fail(e) && (e.spec_kind() matches ErrorKind::Authentication(code)
                && (code is Failure <==> p.auth_response->0.code == 2) && (code is Missing
                <==> p.auth_response->0.code == 3)))
        })),
        from.0 == Stage::Greeting ==> (a matches Arrival::Message(Ok(p)) ==> (p.version == 1
            && p.stream is None && p.stream_end is None && p.count_response is None
            && p.auth_response is None && p.helo_response is Some ==> to == (
            Stage::GreetingEnd(p.helo_response->0.version),
            from.1,
        ) && r is Wait)),
        from.0 matches Stage::GreetingEnd(version) ==> {
            &&& is_terminator(a) ==> to == (Stage::Idle, version) && r is Connected
            &&& !is_terminator(a) ==> to == (Stage::Lost, from.1) && r is Fail
        },
        from.0 == Stage::Counting ==> (a matches Arrival::Message(Ok(p)) ==> (p.version == 1
            && p.stream is None && p.stream_end is None && p.count_response is Some ==> {
            let refused = p.count_response->0.err is Some && p.count_response->0.err->0.error@.len()
                > 0;
            &&& !refused ==> to == (Stage::CountingEnd(p.count_response->0.count), from.1)
                && r is Wait
            &&& refused ==> to == (Stage::Idle, from.1) && (r matches Action::Fail(e) && (
            e.spec_kind() matches ErrorKind::Server(s) && s.raw_text()
                == p.count_response->0.err->0.error@))
        })),
        from.0 matches Stage::CountingEnd(count) ==> {
            &&& is_terminator(a) ==> to == (Stage::Idle, from.1) && r == Action::Counted(count)
            &&& !is_terminator(a) ==> to == (Stage::Idle, from.1) && r is Fail
        },
        a is Closed || a is EndFrame ==> !(r is Send) && !(r is Wait),
{
    if let Arrival::Message(Ok(p)) = a {
        if p.version == 1 {
            assert forall|other: Response| #[trigger] is_response(a, Ok(other)) implies says(
                p,
                Ok::<Response, Error>(other),
            ) by {}
            assert forall|other: Response| #[trigger] is_response(
                a,
                Ok(other),
            ) implies (other.kind_name() == "AuthResponse"@ <==> other is Auth)
                && (other.kind_name() == "HeloResponse"@ <==> other is Helo)
                && (other.kind_name() == "CountResponse"@ <==> other is Count) by {
                lemma_kind_names(other);
            }
        }
    }
}

/// A message that is not due is named, together with the one that was: behind
/// an answer that is the terminator, in its place the answer itself. Such an
/// error has nothing underneath it.
pub proof fn a_message_out_of_turn_is_named(e: Error, got: Response, expected: Seq<char>, a: Arrival)
    ensures
        is_unexpected(e, expected, got) ==> e.source_text() is None && (
        e.spec_kind() matches ErrorKind::Parse(
            ParseError::UnexpectedMessage { expected: wanted, got: name },
        ) && wanted@ == expected && name@ == got.kind_name()),
        is_unended(e, a) ==> !(a is EndFrame),
        is_unended(e, a) && a is Closed ==> e.spec_kind() is UnexpectedEof,
        is_unended(e, a) ==> (a matches Arrival::Broken(broken) ==> e == broken),
        is_unended(e, a) ==> (a matches Arrival::Message(m) ==> is_reading(m, Err(e)) || (
        e.spec_kind() matches ErrorKind::Parse(
            ParseError::UnexpectedMessage { expected: wanted, got: name },
        ) && wanted@ == "StreamEndResponse"@)),
        is_eof(e) <==> e.spec_kind() is UnexpectedEof && e.source_text() is None,
{
}

} // verus!
