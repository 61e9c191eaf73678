//! The rows of a JSON response, handed out one by one as they arrive, and the
//! attributes around them.
use bytes::Bytes;
use vstd::prelude::*;
use vstd::string::*;
use crate::buffer::{octets, octets_slice};
use crate::httpx::decoder::{
    alike, decoded, erred, fed, goes_on, more_to_come, token_taken, Decoder, DecoderView, Polled, Token,
    TokenView,
};
use crate::httpx::error::Error;
use crate::httpx::json_object::{
    members, object_bytes, object_new, object_put, object_text, parse_value, parsed_value,
};
use crate::text::{owned, same_text};

verus! {

/// How far the response is read.
#[derive(Copy, Clone, Debug, PartialEq, Eq, Structural)]
pub enum RowStreamState {
    Start,
    Rows,
    PostRows,
    End,
}

pub enum RawJsonRowItem {
    /// A row, as it was sent.
    Row(Bytes),
    /// Everything but the rows, as one JSON object.
    Metadata(Vec<u8>),
}

/// Which call is under way and what it does next.
enum Place {
    Idle,
    /// The prelude: the brace that opens the response.
    Opening,
    /// The prelude: whether another attribute follows.
    Members,
    /// The prelude: an attribute's name.
    MemberKey,
    /// The prelude: the bracket that opens the rows.
    RowsOpen,
    /// The prelude: whether there is a row.
    RowsFirst,
    /// The prelude: the bracket that closes rows of which there are none.
    RowsClose,
    /// The prelude: an attribute's value.
    MemberValue(String),
    /// Behind the rows: an attribute's name or the end.
    NextKey,
    /// Behind the rows: an attribute's value.
    NextValue(String),
    /// A row.
    NextRow,
    /// Whether another row follows this one.
    RowFollows(Bytes),
    /// The bracket behind this row, the last one.
    RowClose(Bytes),
}

/// A place, apart from how it is stored.
pub enum PlaceView {
    Idle,
    Opening,
    Members,
    MemberKey,
    RowsOpen,
    RowsFirst,
    RowsClose,
    MemberValue(Seq<char>),
    NextKey,
    NextValue(Seq<char>),
    NextRow,
    RowFollows(Seq<u8>),
    RowClose(Seq<u8>),
}

/// The streamer's state, apart from how it is stored.
pub struct StreamerView {
    pub d: DecoderView,
    pub rows_attrib: Seq<char>,
    pub attribs: Map<Seq<char>, Seq<u8>>,
    pub state: RowStreamState,
    pub place: PlaceView,
}

/// What one step came to.
pub enum Outcome {
    /// There is more to do.
    Go,
    /// A chunk is needed first.
    Wait,
    /// The prelude is read.
    Done,
    Failed(Seq<char>),
    Row(Seq<u8>),
    Metadata(Seq<u8>),
    /// There is nothing more to read.
    Ended,
}

pub open spec fn go(s: StreamerView, place: PlaceView) -> (Outcome, StreamerView) {
    (Outcome::Go, StreamerView { place, ..s })
}

pub open spec fn fail(s: StreamerView, text: Seq<char>) -> (Outcome, StreamerView) {
    (Outcome::Failed(text), StreamerView { place: PlaceView::Idle, ..s })
}

/// One step of reading what stands in front of the rows. The rows are the
/// value of the attribute named for them, an array or `null`; every other
/// attribute is kept.
#[verifier::opaque]
pub open spec fn begin_once(s: StreamerView) -> (Outcome, StreamerView) {
    let (token, d1) = token_taken(s.d);
    let t = StreamerView { d: d1, ..s };
    let (more, d2) = more_to_come(s.d);
    let m = StreamerView { d: d2, ..s };
    match s.place {
        PlaceView::Opening => match token {
            Polled::NeedChunk => (Outcome::Wait, t),
            Polled::Ready(Err(e)) => fail(t, e),
            Polled::Ready(Ok(token)) => if token == TokenView::Delim('{') {
                go(t, PlaceView::Members)
            } else {
                fail(t, "expected an opening brace for the result"@)
            },
        },
        PlaceView::Members => match more {
            Polled::NeedChunk => (Outcome::Wait, m),
            Polled::Ready(true) => go(m, PlaceView::MemberKey),
            Polled::Ready(false) => (
                Outcome::Done,
                StreamerView { state: RowStreamState::End, place: PlaceView::Idle, ..m },
            ),
        },
        PlaceView::MemberKey => match token {
            Polled::NeedChunk => (Outcome::Wait, t),
            Polled::Ready(Err(e)) => fail(t, e),
            Polled::Ready(Ok(TokenView::Key(key))) => if key == s.rows_attrib {
                go(t, PlaceView::RowsOpen)
            } else {
                go(t, PlaceView::MemberValue(key))
            },
            Polled::Ready(Ok(_)) => fail(t, "expected a string key for the result"@),
        },
        PlaceView::RowsOpen => match token {
            Polled::NeedChunk => (Outcome::Wait, t),
            Polled::Ready(Err(e)) => fail(t, e),
            Polled::Ready(Ok(token)) => if token == TokenView::Delim('[') {
                go(StreamerView { state: RowStreamState::Rows, ..t }, PlaceView::RowsFirst)
            } else if token == TokenView::Value(seq![0x6eu8, 0x75u8, 0x6cu8, 0x6cu8]) {
                go(t, PlaceView::Members)
            } else {
                fail(t, "expected an opening bracket for the rows"@)
            },
        },
        PlaceView::RowsFirst => match more {
            Polled::NeedChunk => (Outcome::Wait, m),
            Polled::Ready(true) => (
                Outcome::Done,
                StreamerView { state: RowStreamState::Rows, place: PlaceView::Idle, ..m },
            ),
            Polled::Ready(false) => go(m, PlaceView::RowsClose),
        },
        PlaceView::RowsClose => match token {
            Polled::NeedChunk => (Outcome::Wait, t),
            Polled::Ready(Err(e)) => fail(t, e),
            Polled::Ready(Ok(token)) => if token == TokenView::Delim(']') {
                go(StreamerView { state: RowStreamState::PostRows, ..t }, PlaceView::Members)
            } else {
                fail(t, "expected closing ] for the result"@)
            },
        },
        PlaceView::MemberValue(key) => attribute_kept(s, key, PlaceView::Members),
        _ => if s.state == RowStreamState::Start {
            go(s, PlaceView::Opening)
        } else {
            fail(s, "unexpected parsing state during begin"@)
        },
    }
}

/// Reads an attribute's value and keeps it.
pub open spec fn attribute_kept(s: StreamerView, key: Seq<char>, next: PlaceView) -> (
    Outcome,
    StreamerView,
) {
    let (value, d1) = decoded(s.d);
    let v = StreamerView { d: d1, ..s };
    match value {
        Polled::NeedChunk => (Outcome::Wait, v),
        Polled::Ready(Err(e)) => fail(v, e),
        Polled::Ready(Ok(raw)) => match parsed_value(raw) {
            Err(e) => fail(v, "failed to parse value: "@ + e),
            Ok(text) => go(StreamerView { attribs: v.attribs.insert(key, text), ..v }, next),
        },
    }
}

/// One step of reading the next row, or behind the last row the rest of the
/// attributes.
#[verifier::opaque]
pub open spec fn next_once(s: StreamerView) -> (Outcome, StreamerView) {
    let (token, d1) = token_taken(s.d);
    let t = StreamerView { d: d1, ..s };
    let (more, d2) = more_to_come(s.d);
    let m = StreamerView { d: d2, ..s };
    let (value, d3) = decoded(s.d);
    let v = StreamerView { d: d3, ..s };
    match s.place {
        PlaceView::NextKey => match token {
            Polled::NeedChunk => (Outcome::Wait, t),
            Polled::Ready(Err(e)) => fail(t, e),
            Polled::Ready(Ok(TokenView::Key(key))) => go(t, PlaceView::NextValue(key)),
            Polled::Ready(Ok(token)) => if token == TokenView::Delim('}') {
                let end = StreamerView {
                    state: RowStreamState::End,
                    place: PlaceView::Idle,
                    ..t
                };
                match object_text(s.attribs) {
                    Ok(text) => (Outcome::Metadata(text), end),
                    Err(e) => (Outcome::Failed("failed to encode metadata: "@ + e), end),
                }
            } else {
                fail(t, "expected a string key for the result"@)
            },
        },
        PlaceView::NextValue(key) => attribute_kept(s, key, PlaceView::NextKey),
        PlaceView::NextRow => match value {
            Polled::NeedChunk => (Outcome::Wait, v),
            Polled::Ready(Err(e)) => fail(v, e),
            Polled::Ready(Ok(row)) => go(v, PlaceView::RowFollows(row)),
        },
        PlaceView::RowFollows(row) => match more {
            Polled::NeedChunk => (Outcome::Wait, m),
            Polled::Ready(true) => (
                Outcome::Row(row),
                StreamerView { place: PlaceView::Idle, ..m },
            ),
            Polled::Ready(false) => go(m, PlaceView::RowClose(row)),
        },
        PlaceView::RowClose(row) => match token {
            Polled::NeedChunk => (Outcome::Wait, t),
            Polled::Ready(Err(e)) => fail(t, e),
            Polled::Ready(Ok(token)) => if token == TokenView::Delim(']') {
                (
                    Outcome::Row(row),
                    StreamerView {
                        state: RowStreamState::PostRows,
                        place: PlaceView::Idle,
                        ..t
                    },
                )
            } else {
                fail(t, "expected closing ] for the result"@)
            },
        },
        _ => if s.state == RowStreamState::End {
            (Outcome::Ended, StreamerView { place: PlaceView::Idle, ..s })
        } else if s.state == RowStreamState::PostRows {
            go(s, PlaceView::NextKey)
        } else {
            go(s, PlaceView::NextRow)
        },
    }
}

/// How many steps the prelude can take from a place before a byte is consumed.
pub open spec fn prelude_rank(place: PlaceView) -> nat {
    match place {
        PlaceView::MemberKey => 1,
        PlaceView::RowsClose => 1,
        PlaceView::Members => 2,
        PlaceView::RowsFirst => 2,
        PlaceView::MemberValue(_) => 3,
        PlaceView::RowsOpen => 3,
        PlaceView::Opening => 3,
        _ => 4,
    }
}

/// How many steps the next item can take from a place before a byte is
/// consumed.
pub open spec fn item_rank(place: PlaceView) -> nat {
    match place {
        PlaceView::NextKey => 1,
        PlaceView::NextValue(_) => 2,
        PlaceView::RowClose(_) => 1,
        PlaceView::RowFollows(_) => 2,
        PlaceView::NextRow => 3,
        _ => 4,
    }
}

proof fn lemma_begin_nearer(s: StreamerView)
    ensures
        begin_once(s).0 is Go ==> begin_once(s).1.d.pending.len() < s.d.pending.len() || (
        begin_once(s).1.d.pending.len() == s.d.pending.len() && prelude_rank(begin_once(s).1.place)
            < prelude_rank(s.place)),
        !(begin_once(s).0 is Row) && !(begin_once(s).0 is Metadata) && !(begin_once(s).0 is Ended),
{
    reveal(begin_once);
    crate::httpx::decoder::a_token_consumes(s.d);
    crate::httpx::decoder::looking_ahead_consumes_nothing_but_space(s.d);
    crate::httpx::decoder::decoding_consumes(s.d);
}

proof fn lemma_next_nearer(s: StreamerView)
    ensures
        next_once(s).0 is Go ==> next_once(s).1.d.pending.len() < s.d.pending.len() || (next_once(
            s,
        ).1.d.pending.len() == s.d.pending.len() && item_rank(next_once(s).1.place) < item_rank(
            s.place,
        )),
        !(next_once(s).0 is Done),
{
    reveal(next_once);
    crate::httpx::decoder::a_token_consumes(s.d);
    crate::httpx::decoder::looking_ahead_consumes_nothing_but_space(s.d);
    crate::httpx::decoder::decoding_consumes(s.d);
}

#[via_fn]
proof fn begun_ends(s: StreamerView) {
    lemma_begin_nearer(s);
}

#[via_fn]
proof fn nexted_ends(s: StreamerView) {
    lemma_next_nearer(s);
}

/// Reading what stands in front of the rows, step by step until it is read,
/// fails or has to wait.
pub open spec fn begun(s: StreamerView) -> (Outcome, StreamerView)
    decreases s.d.pending.len(), prelude_rank(s.place),
    via begun_ends
{
    let (out, after) = begin_once(s);
    if out is Go {
        begun(after)
    } else {
        (out, after)
    }
}

/// Reading the next row or the rest of the attributes, step by step.
pub open spec fn nexted(s: StreamerView) -> (Outcome, StreamerView)
    decreases s.d.pending.len(), item_rank(s.place),
    via nexted_ends
{
    let (out, after) = next_once(s);
    if out is Go {
        nexted(after)
    } else {
        (out, after)
    }
}

enum Done {
    Go,
    Wait,
    Done,
    Failed(Error),
    Row(Bytes),
    Metadata(Vec<u8>),
    Ended,
}

spec fn done_said(d: Done) -> Outcome {
    match d {
        Done::Go => Outcome::Go,
        Done::Wait => Outcome::Wait,
        Done::Done => Outcome::Done,
        Done::Failed(e) => Outcome::Failed(e.msg@),
        Done::Row(row) => Outcome::Row(octets(row)),
        Done::Metadata(m) => Outcome::Metadata(m@),
        Done::Ended => Outcome::Ended,
    }
}

impl View for Place {
    type V = PlaceView;

    closed spec fn view(&self) -> PlaceView {
        match self {
            Place::Idle => PlaceView::Idle,
            Place::Opening => PlaceView::Opening,
            Place::Members => PlaceView::Members,
            Place::MemberKey => PlaceView::MemberKey,
            Place::RowsOpen => PlaceView::RowsOpen,
            Place::RowsFirst => PlaceView::RowsFirst,
            Place::RowsClose => PlaceView::RowsClose,
            Place::MemberValue(key) => PlaceView::MemberValue(key@),
            Place::NextKey => PlaceView::NextKey,
            Place::NextValue(key) => PlaceView::NextValue(key@),
            Place::NextRow => PlaceView::NextRow,
            Place::RowFollows(row) => PlaceView::RowFollows(octets(*row)),
            Place::RowClose(row) => PlaceView::RowClose(octets(*row)),
        }
    }
}

/// The rows of a JSON response.
pub struct RawJsonRowStreamer {
    stream: Decoder,
    rows_attrib: String,
    attribs: serde_json::Map<std::string::String, serde_json::Value>,
    state: RowStreamState,
    place: Place,
}

impl View for RawJsonRowStreamer {
    type V = StreamerView;

    closed spec fn view(&self) -> StreamerView {
        StreamerView {
            d: self.stream@,
            rows_attrib: self.rows_attrib@,
            attribs: members(self.attribs),
            state: self.state,
            place: self.place@,
        }
    }
}

/// What a reading of the prelude says.
pub open spec fn begin_said(r: Polled<Result<(), Error>>) -> Outcome {
    match r {
        Polled::NeedChunk => Outcome::Wait,
        Polled::Ready(Ok(_)) => Outcome::Done,
        Polled::Ready(Err(e)) => Outcome::Failed(e.msg@),
    }
}

/// What a reading of the next item says.
pub open spec fn next_said(r: Polled<Option<Result<RawJsonRowItem, Error>>>) -> Outcome {
    match r {
        Polled::NeedChunk => Outcome::Wait,
        Polled::Ready(None) => Outcome::Ended,
        Polled::Ready(Some(Ok(RawJsonRowItem::Row(row)))) => Outcome::Row(octets(row)),
        Polled::Ready(Some(Ok(RawJsonRowItem::Metadata(m)))) => Outcome::Metadata(m@),
        Polled::Ready(Some(Err(e))) => Outcome::Failed(e.msg@),
    }
}

impl RawJsonRowStreamer {
    pub closed spec fn wf(&self) -> bool {
        self.stream.wf()
    }

    /// The rows of what `stream` takes apart: the elements of the attribute
    /// with this name.
    pub fn new(stream: Decoder, rows_attrib: &str) -> (r: Self)
        requires
            stream.wf(),
        ensures
            r.wf(),
            r@ == (StreamerView {
                d: stream@,
                rows_attrib: rows_attrib@,
                attribs: crate::httpx::json_object::no_members(),
                state: RowStreamState::Start,
                place: PlaceView::Idle,
            }),
    {
        RawJsonRowStreamer {
            stream,
            rows_attrib: owned(rows_attrib),
            attribs: object_new(),
            state: RowStreamState::Start,
            place: Place::Idle,
        }
    }

    /// Hands in the next chunk.
    pub fn feed(&mut self, next: Bytes)
        requires
            old(self).wf(),
        ensures
            final(self).wf(),
            final(self)@ == stream_fed(old(self)@, octets(next)),
    {
        self.stream.feed(next);
    }

    /// The transport failed.
    pub fn feed_error(&mut self, e: Error)
        requires
            old(self).wf(),
        ensures
            final(self).wf(),
            final(self)@ == (StreamerView {
                d: DecoderView { arrived: Some(e.msg@), ..old(self)@.d },
                ..old(self)@
            }),
    {
        self.stream.feed_error(e);
    }

    /// The response is over.
    pub fn feed_end(&mut self)
        requires
            old(self).wf(),
        ensures
            final(self).wf(),
            final(self)@ == (StreamerView {
                d: DecoderView { ended: true, ..old(self)@.d },
                ..old(self)@
            }),
    {
        self.stream.feed_end();
    }

    fn take_place(&mut self) -> (r: Place)
        requires
            old(self).wf(),
        ensures
            final(self).wf(),
            r@ == old(self)@.place,
            final(self)@ == (StreamerView { place: PlaceView::Idle, ..old(self)@ }),
    {
        let mut place: Place = Place::Idle;
        std::mem::swap(&mut place, &mut self.place);
        place
    }

    fn failed(text: &str) -> (r: Done)
        ensures
            done_said(r) == Outcome::Failed(text@),
    {
        Done::Failed(Error::new_message_error(text))
    }

    fn keep_attribute(&mut self, key: String, in_prelude: bool) -> (r: Done)
        requires
            old(self).wf(),
            old(self)@.place is Idle,
        ensures
            final(self).wf(),
            (done_said(r), final(self)@) == attribute_kept(
                StreamerView {
                    place: if in_prelude {
                        PlaceView::MemberValue(key@)
                    } else {
                        PlaceView::NextValue(key@)
                    },
                    ..old(self)@
                },
                key@,
                if in_prelude {
                    PlaceView::Members
                } else {
                    PlaceView::NextKey
                },
            ),
    {
        let raw: Bytes = match self.stream.decode() {
            Polled::NeedChunk => {
                self.place = if in_prelude {
                    Place::MemberValue(key)
                } else {
                    Place::NextValue(key)
                };
                return Done::Wait;
            },
            Polled::Ready(Err(e)) => {
                return Done::Failed(e);
            },
            Polled::Ready(Ok(raw)) => raw,
        };
        match parse_value(octets_slice(&raw)) {
            Ok(value) => {
                object_put(&mut self.attribs, key, value);
                self.place = if in_prelude {
                    Place::Members
                } else {
                    Place::NextKey
                };
                Done::Go
            },
            Err(e) => {
                let text: String = owned("failed to parse value: ").concat(e.as_str());
                Done::Failed(Error { msg: text })
            },
        }
    }

    fn begin_step(&mut self) -> (r: Done)
        requires
            old(self).wf(),
        ensures
            final(self).wf(),
            (done_said(r), final(self)@) == begin_once(old(self)@),
    {
        proof {
            reveal(begin_once);
        }
        match self.take_place() {
            Place::Opening => {
                match self.stream.token() {
                    Polled::NeedChunk => {
                        self.place = Place::Opening;
                        Done::Wait
                    },
                    Polled::Ready(Err(e)) => Done::Failed(e),
                    Polled::Ready(Ok(Token::Delim(c))) => {
                        if c == '{' {
                            self.place = Place::Members;
                            Done::Go
                        } else {
                            RawJsonRowStreamer::failed("expected an opening brace for the result")
                        }
                    },
                    Polled::Ready(Ok(_)) => RawJsonRowStreamer::failed(
                        "expected an opening brace for the result",
                    ),
                }
            },
            Place::Members => {
                match self.stream.more() {
                    Polled::NeedChunk => {
                        self.place = Place::Members;
                        Done::Wait
                    },
                    Polled::Ready(more) => {
                        if more {
                            self.place = Place::MemberKey;
                            Done::Go
                        } else {
                            self.state = RowStreamState::End;
                            Done::Done
                        }
                    },
                }
            },
            Place::MemberKey => {
                match self.stream.token() {
                    Polled::NeedChunk => {
                        self.place = Place::MemberKey;
                        Done::Wait
                    },
                    Polled::Ready(Err(e)) => Done::Failed(e),
                    Polled::Ready(Ok(Token::String(key))) => {
                        self.place = if same_text(key.as_str(), self.rows_attrib.as_str()) {
                            Place::RowsOpen
                        } else {
                            Place::MemberValue(key)
                        };
                        Done::Go
                    },
                    Polled::Ready(Ok(_)) => RawJsonRowStreamer::failed(
                        "expected a string key for the result",
                    ),
                }
            },
            Place::RowsOpen => {
                match self.stream.token() {
                    Polled::NeedChunk => {
                        self.place = Place::RowsOpen;
                        Done::Wait
                    },
                    Polled::Ready(Err(e)) => Done::Failed(e),
                    Polled::Ready(Ok(Token::Delim(c))) => {
                        if c == '[' {
                            self.state = RowStreamState::Rows;
                            self.place = Place::RowsFirst;
                            Done::Go
                        } else {
                            RawJsonRowStreamer::failed("expected an opening bracket for the rows")
                        }
                    },
                    Polled::Ready(Ok(Token::Value(v))) => {
                        let bytes: &[u8] = octets_slice(&v);
                        if bytes.len() == 4 && bytes[0] == 0x6e && bytes[1] == 0x75 && bytes[2]
                            == 0x6c && bytes[3] == 0x6c {
                            assert(bytes@ =~= seq![0x6eu8, 0x75u8, 0x6cu8, 0x6cu8]);
                            self.place = Place::Members;
                            Done::Go
                        } else {
                            RawJsonRowStreamer::failed("expected an opening bracket for the rows")
                        }
                    },
                    Polled::Ready(Ok(Token::String(_))) => RawJsonRowStreamer::failed(
                        "expected an opening bracket for the rows",
                    ),
                }
            },
            Place::RowsFirst => {
                match self.stream.more() {
                    Polled::NeedChunk => {
                        self.place = Place::RowsFirst;
                        Done::Wait
                    },
                    Polled::Ready(more) => {
                        if more {
                            self.state = RowStreamState::Rows;
                            Done::Done
                        } else {
                            self.place = Place::RowsClose;
                            Done::Go
                        }
                    },
                }
            },
            Place::RowsClose => {
                match self.stream.token() {
                    Polled::NeedChunk => {
                        self.place = Place::RowsClose;
                        Done::Wait
                    },
                    Polled::Ready(Err(e)) => Done::Failed(e),
                    Polled::Ready(Ok(Token::Delim(c))) => {
                        if c == ']' {
                            self.state = RowStreamState::PostRows;
                            self.place = Place::Members;
                            Done::Go
                        } else {
                            RawJsonRowStreamer::failed("expected closing ] for the result")
                        }
                    },
                    Polled::Ready(Ok(_)) => RawJsonRowStreamer::failed(
                        "expected closing ] for the result",
                    ),
                }
            },
            Place::MemberValue(key) => self.keep_attribute(key, true),
            _ => {
                if self.state == RowStreamState::Start {
                    self.place = Place::Opening;
                    Done::Go
                } else {
                    RawJsonRowStreamer::failed("unexpected parsing state during begin")
                }
            },
        }
    }

    /// Reads what stands in front of the rows.
    pub fn begin(&mut self) -> (r: Polled<Result<(), Error>>)
        requires
            old(self).wf(),
        ensures
            final(self).wf(),
            (begin_said(r), final(self)@) == begun(old(self)@),
    {
        loop
            invariant
                self.wf(),
                begun(self@) == begun(old(self)@),
            decreases self@.d.pending.len(), prelude_rank(self@.place),
        {
            proof {
                lemma_begin_nearer(self@);
            }
            match self.begin_step() {
                Done::Go => {},
                Done::Wait => {
                    return Polled::NeedChunk;
                },
                Done::Failed(e) => {
                    return Polled::Ready(Err(e));
                },
                Done::Done => {
                    return Polled::Ready(Ok(()));
                },
                _ => {},
            }
        }
    }
}

/// What has arrived after `bytes` did too.
pub open spec fn stream_fed(s: StreamerView, bytes: Seq<u8>) -> StreamerView {
    StreamerView { d: fed(s.d, bytes), ..s }
}

/// What the prelude reads as: the attributes in front of the rows.
pub open spec fn prelude_read(s: StreamerView) -> (Polled<Result<Seq<u8>, Seq<char>>>, StreamerView) {
    let (out, after) = begun(s);
    (
        match out {
            Outcome::Done => Polled::Ready(
                attributes_written(after, "failed to read prelude: "@),
            ),
            Outcome::Failed(e) => Polled::Ready(Err(e)),
            _ => Polled::NeedChunk,
        },
        after,
    )
}

/// The attributes kept so far as one JSON object.
pub open spec fn attributes_written(s: StreamerView, complaint: Seq<char>) -> Result<
    Seq<u8>,
    Seq<char>,
> {
    match object_text(s.attribs) {
        Ok(text) => Ok(text),
        Err(e) => Err(complaint + e),
    }
}

pub open spec fn bytes_said(r: Result<Vec<u8>, Error>) -> Result<Seq<u8>, Seq<char>> {
    match r {
        Ok(v) => Ok(v@),
        Err(e) => Err(e.msg@),
    }
}

impl RawJsonRowStreamer {
    fn write_attributes(&self, complaint: &str) -> (r: Result<Vec<u8>, Error>)
        ensures
            bytes_said(r) == attributes_written(self@, complaint@),
    {
        match object_bytes(&self.attribs) {
            Ok(bytes) => Ok(bytes),
            Err(e) => Err(Error { msg: owned(complaint).concat(e.as_str()) }),
        }
    }

    /// Whether another row follows. Nothing is said of rows before the prelude
    /// is read.
    pub fn has_more_rows(&mut self) -> (r: Polled<bool>)
        requires
            old(self).wf(),
        ensures
            final(self).wf(),
            old(self)@.state != RowStreamState::Rows ==> r == Polled::Ready(false) && final(self)@
                == old(self)@,
            old(self)@.state == RowStreamState::Rows ==> (r, final(self)@) == (
                more_to_come(old(self)@.d).0,
                StreamerView { d: more_to_come(old(self)@.d).1, ..old(self)@ },
            ),
    {
        if self.state != RowStreamState::Rows {
            return Polled::Ready(false);
        }
        self.stream.more()
    }

    /// Reads what stands in front of the rows and hands out its attributes as
    /// one JSON object.
    pub fn read_prelude(&mut self) -> (r: Polled<Result<Vec<u8>, Error>>)
        requires
            old(self).wf(),
        ensures
            final(self).wf(),
            final(self)@ == prelude_read(old(self)@).1,
            match prelude_read(old(self)@).0 {
                Polled::NeedChunk => r is NeedChunk,
                Polled::Ready(said) => r is Ready && bytes_said(r->Ready_0) == said,
            },
    {
        match self.begin() {
            Polled::NeedChunk => Polled::NeedChunk,
            Polled::Ready(Err(e)) => Polled::Ready(Err(e)),
            Polled::Ready(Ok(_)) => Polled::Ready(
                self.write_attributes("failed to read prelude: "),
            ),
        }
    }

    /// All attributes that were read, as one JSON object.
    pub fn epilog(&mut self) -> (r: Result<Vec<u8>, Error>)
        requires
            old(self).wf(),
        ensures
            final(self).wf(),
            final(self)@ == old(self)@,
            bytes_said(r) == attributes_written(old(self)@, "failed to read epilogue: "@),
    {
        self.write_attributes("failed to read epilogue: ")
    }

    fn next_step(&mut self) -> (r: Done)
        requires
            old(self).wf(),
        ensures
            final(self).wf(),
            (done_said(r), final(self)@) == next_once(old(self)@),
    {
        proof {
            reveal(next_once);
        }
        match self.take_place() {
            Place::NextKey => {
                match self.stream.token() {
                    Polled::NeedChunk => {
                        self.place = Place::NextKey;
                        Done::Wait
                    },
                    Polled::Ready(Err(e)) => Done::Failed(e),
                    Polled::Ready(Ok(Token::String(key))) => {
                        self.place = Place::NextValue(key);
                        Done::Go
                    },
                    Polled::Ready(Ok(Token::Delim(c))) => {
                        if c == '}' {
                            self.state = RowStreamState::End;
                            match self.write_attributes("failed to encode metadata: ") {
                                Ok(bytes) => Done::Metadata(bytes),
                                Err(e) => Done::Failed(e),
                            }
                        } else {
                            RawJsonRowStreamer::failed("expected a string key for the result")
                        }
                    },
                    Polled::Ready(Ok(Token::Value(_))) => RawJsonRowStreamer::failed(
                        "expected a string key for the result",
                    ),
                }
            },
            Place::NextValue(key) => self.keep_attribute(key, false),
            Place::NextRow => {
                match self.stream.decode() {
                    Polled::NeedChunk => {
                        self.place = Place::NextRow;
                        Done::Wait
                    },
                    Polled::Ready(Err(e)) => Done::Failed(e),
                    Polled::Ready(Ok(row)) => {
                        self.place = Place::RowFollows(row);
                        Done::Go
                    },
                }
            },
            Place::RowFollows(row) => {
                match self.stream.more() {
                    Polled::NeedChunk => {
                        self.place = Place::RowFollows(row);
                        Done::Wait
                    },
                    Polled::Ready(more) => {
                        if more {
                            Done::Row(row)
                        } else {
                            self.place = Place::RowClose(row);
                            Done::Go
                        }
                    },
                }
            },
            Place::RowClose(row) => {
                match self.stream.token() {
                    Polled::NeedChunk => {
                        self.place = Place::RowClose(row);
                        Done::Wait
                    },
                    Polled::Ready(Err(e)) => Done::Failed(e),
                    Polled::Ready(Ok(Token::Delim(c))) => {
                        if c == ']' {
                            self.state = RowStreamState::PostRows;
                            Done::Row(row)
                        } else {
                            RawJsonRowStreamer::failed("expected closing ] for the result")
                        }
                    },
                    Polled::Ready(Ok(_)) => RawJsonRowStreamer::failed(
                        "expected closing ] for the result",
                    ),
                }
            },
            _ => {
                if self.state == RowStreamState::End {
                    Done::Ended
                } else if self.state == RowStreamState::PostRows {
                    self.place = Place::NextKey;
                    Done::Go
                } else {
                    self.place = Place::NextRow;
                    Done::Go
                }
            },
        }
    }

    /// The next row, or behind the last one everything but the rows.
    pub fn next(&mut self) -> (r: Polled<Option<Result<RawJsonRowItem, Error>>>)
        requires
            old(self).wf(),
        ensures
            final(self).wf(),
            (next_said(r), final(self)@) == nexted(old(self)@),
    {
        loop
            invariant
                self.wf(),
                nexted(self@) == nexted(old(self)@),
            decreases self@.d.pending.len(), item_rank(self@.place),
        {
            proof {
                lemma_next_nearer(self@);
            }
            match self.next_step() {
                Done::Go => {},
                Done::Wait => {
                    return Polled::NeedChunk;
                },
                Done::Failed(e) => {
                    return Polled::Ready(Some(Err(e)));
                },
                Done::Row(row) => {
                    return Polled::Ready(Some(Ok(RawJsonRowItem::Row(row))));
                },
                Done::Metadata(m) => {
                    return Polled::Ready(Some(Ok(RawJsonRowItem::Metadata(m))));
                },
                Done::Ended => {
                    return Polled::Ready(None);
                },
                Done::Done => {},
            }
        }
    }
}

/// Everything but whether the decoder is reading a value.
pub open spec fn streams_alike(a: StreamerView, b: StreamerView) -> bool {
    alike(a.d, b.d) && a == (StreamerView { d: a.d, ..b })
}

/// Three answers of the decoder at once, as a step may use any of them.
proof fn lemma_answers_extend(d: DecoderView, more: Seq<u8>)
    requires
        goes_on(d),
    ensures
        token_taken(d).0 is Ready ==> token_taken(fed(d, more)).0 == token_taken(d).0,
        token_taken(d).0 is Ready && !erred(token_taken(d).0) ==> alike(
            token_taken(fed(d, more)).1,
            fed(token_taken(d).1, more),
        ),
        token_taken(d).0 is NeedChunk ==> token_taken(fed(token_taken(d).1, more)).0
            == token_taken(fed(d, more)).0,
        token_taken(d).0 is NeedChunk && !erred(token_taken(fed(d, more)).0) ==> alike(
            token_taken(fed(token_taken(d).1, more)).1,
            token_taken(fed(d, more)).1,
        ),
        goes_on(token_taken(d).1),
        decoded(d).0 is Ready ==> decoded(fed(d, more)).0 == decoded(d).0,
        decoded(d).0 is Ready && !erred(decoded(d).0) ==> alike(
            decoded(fed(d, more)).1,
            fed(decoded(d).1, more),
        ),
        decoded(d).0 is NeedChunk ==> decoded(fed(decoded(d).1, more)).0 == decoded(
            fed(d, more),
        ).0,
        decoded(d).0 is NeedChunk && !erred(decoded(fed(d, more)).0) ==> alike(
            decoded(fed(decoded(d).1, more)).1,
            decoded(fed(d, more)).1,
        ),
        goes_on(decoded(d).1),
        more_to_come(d).0 is Ready ==> more_to_come(fed(d, more)).0 == more_to_come(d).0 && alike(
            more_to_come(fed(d, more)).1,
            fed(more_to_come(d).1, more),
        ) && goes_on(more_to_come(d).1),
        more_to_come(d).0 is NeedChunk ==> more_to_come(fed(more_to_come(d).1, more)).0
            == more_to_come(fed(d, more)).0 && alike(
            more_to_come(fed(more_to_come(d).1, more)).1,
            more_to_come(fed(d, more)).1,
        ) && goes_on(more_to_come(d).1),
{
    crate::httpx::decoder::a_token_does_not_depend_on_the_chunks(d, more);
    crate::httpx::decoder::a_value_does_not_depend_on_the_chunks(d, more);
    crate::httpx::decoder::looking_ahead_does_not_depend_on_the_chunks(d, more);
    crate::httpx::decoder::taking_leaves_the_transport_alone(d);
}

proof fn lemma_answers_alike(a: DecoderView, b: DecoderView)
    requires
        goes_on(a),
        alike(a, b),
    ensures
        token_taken(a).0 == token_taken(b).0,
        !erred(token_taken(a).0) ==> alike(token_taken(a).1, token_taken(b).1),
        decoded(a).0 == decoded(b).0,
        !erred(decoded(a).0) ==> alike(decoded(a).1, decoded(b).1),
        more_to_come(a).0 == more_to_come(b).0,
        alike(more_to_come(a).1, more_to_come(b).1),
{
    crate::httpx::decoder::answers_do_not_depend_on_reading(a, b);
}

proof fn lemma_next_once_alike(a: StreamerView, b: StreamerView)
    requires
        goes_on(a.d),
        streams_alike(a, b),
    ensures
        next_once(a).0 == next_once(b).0,
        !(next_once(a).0 is Failed) ==> streams_alike(next_once(a).1, next_once(b).1),
{
    reveal(next_once);
    lemma_answers_alike(a.d, b.d);
}

proof fn lemma_nexted_alike(a: StreamerView, b: StreamerView)
    requires
        goes_on(a.d),
        streams_alike(a, b),
    ensures
        nexted(a).0 == nexted(b).0,
        !(nexted(a).0 is Failed) ==> streams_alike(nexted(a).1, nexted(b).1),
    decreases a.d.pending.len(), item_rank(a.place),
{
    lemma_next_once_alike(a, b);
    lemma_next_nearer(a);
    lemma_next_keeps_going(a);
    if next_once(a).0 is Go {
        lemma_nexted_alike(next_once(a).1, next_once(b).1);
    }
}

proof fn lemma_next_keeps_going(s: StreamerView)
    requires
        goes_on(s.d),
    ensures
        goes_on(next_once(s).1.d),
{
    reveal(next_once);
    crate::httpx::decoder::taking_leaves_the_transport_alone(s.d);
}

proof fn lemma_next_once_extends(s: StreamerView, more: Seq<u8>)
    requires
        goes_on(s.d),
    ensures
        !(next_once(s).0 is Wait) ==> next_once(stream_fed(s, more)).0 == next_once(s).0,
        !(next_once(s).0 is Wait) && !(next_once(s).0 is Failed) ==> streams_alike(
            next_once(stream_fed(s, more)).1,
            stream_fed(next_once(s).1, more),
        ),
        next_once(s).0 is Wait ==> next_once(stream_fed(next_once(s).1, more)).0 == next_once(
            stream_fed(s, more),
        ).0 && next_once(s).1.place == s.place,
        next_once(s).0 is Wait && !(next_once(stream_fed(s, more)).0 is Failed) ==> streams_alike(
            next_once(stream_fed(next_once(s).1, more)).1,
            next_once(stream_fed(s, more)).1,
        ),
{
    reveal(next_once);
    lemma_answers_extend(s.d, more);
}

/// What is read next does not depend on where the response was cut into
/// chunks: an item read from what has arrived is the item whatever arrives
/// later, and one that had to be waited for is what it would have been had all
/// of it been there from the start. What is left to read is the same, too,
/// unless the item is a failure.
pub proof fn an_item_does_not_depend_on_the_chunks(s: StreamerView, more: Seq<u8>)
    requires
        goes_on(s.d),
    ensures
        !(nexted(s).0 is Wait) ==> nexted(stream_fed(s, more)).0 == nexted(s).0,
        !(nexted(s).0 is Wait) && !(nexted(s).0 is Failed) ==> streams_alike(
            nexted(stream_fed(s, more)).1,
            stream_fed(nexted(s).1, more),
        ),
        nexted(s).0 is Wait ==> nexted(stream_fed(nexted(s).1, more)).0 == nexted(
            stream_fed(s, more),
        ).0,
        nexted(s).0 is Wait && !(nexted(stream_fed(s, more)).0 is Failed) ==> streams_alike(
            nexted(stream_fed(nexted(s).1, more)).1,
            nexted(stream_fed(s, more)).1,
        ),
    decreases s.d.pending.len(), item_rank(s.place),
{
    lemma_next_once_extends(s, more);
    lemma_next_nearer(s);
    lemma_next_keeps_going(s);
    let (out, after) = next_once(s);
    let f = stream_fed(s, more);
    let (out2, f1) = next_once(f);
    if out is Go {
        an_item_does_not_depend_on_the_chunks(after, more);
        lemma_next_keeps_going(f);
        lemma_nexted_alike(f1, stream_fed(after, more));
        lemma_nexted_keeps_going(after);
    } else if out is Wait {
        let e = stream_fed(after, more);
        let (out3, e1) = next_once(e);
        if out3 is Go {
            lemma_next_keeps_going(e);
            lemma_nexted_alike(e1, f1);
        }
    }
}

proof fn lemma_nexted_keeps_going(s: StreamerView)
    requires
        goes_on(s.d),
    ensures
        goes_on(nexted(s).1.d),
    decreases s.d.pending.len(), item_rank(s.place),
{
    lemma_next_keeps_going(s);
    lemma_next_nearer(s);
    if next_once(s).0 is Go {
        lemma_nexted_keeps_going(next_once(s).1);
    }
}

proof fn lemma_begin_once_alike(a: StreamerView, b: StreamerView)
    requires
        goes_on(a.d),
        streams_alike(a, b),
    ensures
        begin_once(a).0 == begin_once(b).0,
        !(begin_once(a).0 is Failed) ==> streams_alike(begin_once(a).1, begin_once(b).1),
{
    reveal(begin_once);
    lemma_answers_alike(a.d, b.d);
}

pub(crate) proof fn lemma_begun_alike(a: StreamerView, b: StreamerView)
    requires
        goes_on(a.d),
        streams_alike(a, b),
    ensures
        begun(a).0 == begun(b).0,
        !(begun(a).0 is Failed) ==> streams_alike(begun(a).1, begun(b).1),
    decreases a.d.pending.len(), prelude_rank(a.place),
{
    lemma_begin_once_alike(a, b);
    lemma_begin_nearer(a);
    lemma_begin_keeps_going(a);
    if begin_once(a).0 is Go {
        lemma_begun_alike(begin_once(a).1, begin_once(b).1);
    }
}

proof fn lemma_begin_keeps_going(s: StreamerView)
    requires
        goes_on(s.d),
    ensures
        goes_on(begin_once(s).1.d),
{
    reveal(begin_once);
    crate::httpx::decoder::taking_leaves_the_transport_alone(s.d);
}

#[verifier::rlimit(50)]
proof fn lemma_begin_once_extends(s: StreamerView, more: Seq<u8>)
    requires
        goes_on(s.d),
    ensures
        !(begin_once(s).0 is Wait) ==> begin_once(stream_fed(s, more)).0 == begin_once(s).0,
        !(begin_once(s).0 is Wait) && !(begin_once(s).0 is Failed) ==> streams_alike(
            begin_once(stream_fed(s, more)).1,
            stream_fed(begin_once(s).1, more),
        ),
        begin_once(s).0 is Wait ==> begin_once(stream_fed(begin_once(s).1, more)).0 == begin_once(
            stream_fed(s, more),
        ).0 && begin_once(s).1.place == s.place,
        begin_once(s).0 is Wait && !(begin_once(stream_fed(s, more)).0 is Failed) ==> streams_alike(
            begin_once(stream_fed(begin_once(s).1, more)).1,
            begin_once(stream_fed(s, more)).1,
        ),
{
    reveal(begin_once);
    lemma_answers_extend(s.d, more);
}

/// The same of what stands in front of the rows.
pub proof fn the_prelude_does_not_depend_on_the_chunks(s: StreamerView, more: Seq<u8>)
    requires
        goes_on(s.d),
    ensures
        !(begun(s).0 is Wait) ==> begun(stream_fed(s, more)).0 == begun(s).0,
        !(begun(s).0 is Wait) && !(begun(s).0 is Failed) ==> streams_alike(
            begun(stream_fed(s, more)).1,
            stream_fed(begun(s).1, more),
        ),
        begun(s).0 is Wait ==> begun(stream_fed(begun(s).1, more)).0 == begun(
            stream_fed(s, more),
        ).0,
        begun(s).0 is Wait && !(begun(stream_fed(s, more)).0 is Failed) ==> streams_alike(
            begun(stream_fed(begun(s).1, more)).1,
            begun(stream_fed(s, more)).1,
        ),
    decreases s.d.pending.len(), prelude_rank(s.place),
{
    lemma_begin_once_extends(s, more);
    lemma_begin_nearer(s);
    lemma_begin_keeps_going(s);
    let (out, after) = begin_once(s);
    let f = stream_fed(s, more);
    let (out2, f1) = begin_once(f);
    if out is Go {
        the_prelude_does_not_depend_on_the_chunks(after, more);
        lemma_begin_keeps_going(f);
        lemma_begun_alike(f1, stream_fed(after, more));
        lemma_begun_keeps_going(after);
    } else if out is Wait {
        let e = stream_fed(after, more);
        let (out3, e1) = begin_once(e);
        if out3 is Go {
            lemma_begin_keeps_going(e);
            lemma_begun_alike(e1, f1);
        }
    }
}

pub(crate) proof fn lemma_begun_keeps_going(s: StreamerView)
    requires
        goes_on(s.d),
    ensures
        goes_on(begun(s).1.d),
    decreases s.d.pending.len(), prelude_rank(s.place),
{
    lemma_begin_keeps_going(s);
    lemma_begin_nearer(s);
    if begin_once(s).0 is Go {
        lemma_begun_keeps_going(begin_once(s).1);
    }
}

/// The bytes of all chunks, in their order.
pub open spec fn joined(chunks: Seq<Seq<u8>>) -> Seq<u8>
    decreases chunks.len(),
{
    if chunks.len() == 0 {
        Seq::empty()
    } else {
        chunks[0] + joined(chunks.skip(1))
    }
}

/// The next `n` items, a chunk being fed whenever one has to be waited for.
/// They are fewer where no chunk is left, and where one is a failure: that is
/// the last.
pub open spec fn items_read(s: StreamerView, chunks: Seq<Seq<u8>>, n: nat) -> Seq<Outcome>
    decreases n, chunks.len(),
{
    let (out, after) = nexted(s);
    if n == 0 {
        Seq::empty()
    } else if out is Failed {
        seq![out]
    } else if !(out is Wait) {
        seq![out] + items_read(after, chunks, (n - 1) as nat)
    } else if chunks.len() == 0 {
        Seq::empty()
    } else {
        items_read(stream_fed(after, chunks[0]), chunks.skip(1), n)
    }
}

/// A response read chunk by chunk: its prelude, and the first `n` items behind
/// it, up to a failure. There is no prelude where the chunks do not hold all of it.
pub open spec fn response_read(s: StreamerView, chunks: Seq<Seq<u8>>, n: nat) -> (
    Option<Result<Seq<u8>, Seq<char>>>,
    Seq<Outcome>,
)
    decreases chunks.len(),
{
    let (answer, after) = prelude_read(s);
    match answer {
        Polled::Ready(Ok(prelude)) => (Some(Ok(prelude)), items_read(after, chunks, n)),
        Polled::Ready(Err(e)) => (Some(Err(e)), Seq::empty()),
        Polled::NeedChunk => if chunks.len() == 0 {
            (None, Seq::empty())
        } else {
            response_read(stream_fed(after, chunks[0]), chunks.skip(1), n)
        },
    }
}

proof fn lemma_items_alike(a: StreamerView, b: StreamerView, chunks: Seq<Seq<u8>>, n: nat)
    requires
        goes_on(a.d),
        streams_alike(a, b),
    ensures
        items_read(a, chunks, n) == items_read(b, chunks, n),
    decreases n, chunks.len(),
{
    lemma_nexted_alike(a, b);
    lemma_nexted_keeps_going(a);
    let (out, after) = nexted(a);
    let other = nexted(b).1;
    if n > 0 {
        if out is Failed {
        } else if !(out is Wait) {
            lemma_items_alike(after, other, chunks, (n - 1) as nat);
        } else if chunks.len() > 0 {
            lemma_items_alike(
                stream_fed(after, chunks[0]),
                stream_fed(other, chunks[0]),
                chunks.skip(1),
                n,
            );
        }
    }
}

/// A chunk may as well be there before it is waited for.
proof fn lemma_items_ahead(s: StreamerView, chunks: Seq<Seq<u8>>, n: nat)
    requires
        goes_on(s.d),
        chunks.len() > 0,
    ensures
        items_read(s, chunks, n) == items_read(stream_fed(s, chunks[0]), chunks.skip(1), n),
    decreases n,
{
    let c = chunks[0];
    let rest = chunks.skip(1);
    let f = stream_fed(s, c);
    an_item_does_not_depend_on_the_chunks(s, c);
    lemma_nexted_keeps_going(s);
    lemma_nexted_keeps_going(f);
    let (out, after) = nexted(s);
    if n > 0 {
        if out is Failed {
        } else if !(out is Wait) {
            lemma_items_ahead(after, chunks, (n - 1) as nat);
            lemma_items_alike(nexted(f).1, stream_fed(after, c), rest, (n - 1) as nat);
        } else {
            let e = stream_fed(after, c);
            assert(items_read(s, chunks, n) == items_read(e, rest, n));
            lemma_nexted_keeps_going(e);
            if nexted(e).0 is Failed {
            } else if !(nexted(e).0 is Wait) {
                lemma_items_alike(nexted(e).1, nexted(f).1, rest, (n - 1) as nat);
            } else if rest.len() > 0 {
                lemma_items_alike(
                    stream_fed(nexted(e).1, rest[0]),
                    stream_fed(nexted(f).1, rest[0]),
                    rest.skip(1),
                    n,
                );
            }
        }
    }
}

pub(crate) proof fn lemma_begun_settles(s: StreamerView)
    ensures
        begun(s).0 is Wait || begun(s).0 is Done || begun(s).0 is Failed,
    decreases s.d.pending.len(), prelude_rank(s.place),
{
    lemma_begin_nearer(s);
    if begin_once(s).0 is Go {
        lemma_begun_settles(begin_once(s).1);
    }
}

proof fn lemma_response_alike(a: StreamerView, b: StreamerView, chunks: Seq<Seq<u8>>, n: nat)
    requires
        goes_on(a.d),
        streams_alike(a, b),
    ensures
        response_read(a, chunks, n) == response_read(b, chunks, n),
    decreases chunks.len(),
{
    lemma_begun_alike(a, b);
    lemma_begun_settles(a);
    lemma_begun_keeps_going(a);
    let (answer, after) = prelude_read(a);
    let other = prelude_read(b).1;
    if begun(a).0 is Done {
        lemma_items_alike(after, other, chunks, n);
    } else if answer is NeedChunk && chunks.len() > 0 {
        lemma_response_alike(
            stream_fed(after, chunks[0]),
            stream_fed(other, chunks[0]),
            chunks.skip(1),
            n,
        );
    }
}

proof fn lemma_response_ahead(s: StreamerView, chunks: Seq<Seq<u8>>, n: nat)
    requires
        goes_on(s.d),
        chunks.len() > 0,
    ensures
        response_read(s, chunks, n) == response_read(stream_fed(s, chunks[0]), chunks.skip(1), n),
{
    let c = chunks[0];
    let rest = chunks.skip(1);
    let f = stream_fed(s, c);
    the_prelude_does_not_depend_on_the_chunks(s, c);
    lemma_begun_settles(s);
    lemma_begun_keeps_going(s);
    lemma_begun_keeps_going(f);
    let after = begun(s).1;
    if begun(s).0 is Failed {
    } else if begun(s).0 is Done {
        lemma_items_ahead(after, chunks, n);
        lemma_items_alike(begun(f).1, stream_fed(after, c), rest, n);
    } else {
        let e = stream_fed(after, c);
        assert(response_read(s, chunks, n) == response_read(e, rest, n));
        lemma_begun_keeps_going(e);
        lemma_begun_settles(e);
        if begun(e).0 is Failed {
        } else if begun(e).0 is Done {
            lemma_items_alike(begun(e).1, begun(f).1, rest, n);
        } else if rest.len() > 0 {
            lemma_response_alike(
                stream_fed(begun(e).1, rest[0]),
                stream_fed(begun(f).1, rest[0]),
                rest.skip(1),
                n,
            );
        }
    }
}

/// A response reads the same however it was cut into chunks: its prelude, every
/// row and what stands behind the rows are what they would be had all of it
/// arrived at once.
pub proof fn a_response_does_not_depend_on_the_chunks(
    s: StreamerView,
    chunks: Seq<Seq<u8>>,
    n: nat,
)
    requires
        goes_on(s.d),
    ensures
        response_read(s, chunks, n) == response_read(
            stream_fed(s, joined(chunks)),
            Seq::empty(),
            n,
        ),
    decreases chunks.len(),
{
    if chunks.len() == 0 {
        assert(chunks =~= Seq::empty());
        assert(s.d.pending + joined(chunks) =~= s.d.pending);
        lemma_response_alike(s, stream_fed(s, joined(chunks)), chunks, n);
    } else {
        let c = chunks[0];
        let rest = joined(chunks.skip(1));
        let f = stream_fed(s, c);
        lemma_response_ahead(s, chunks, n);
        a_response_does_not_depend_on_the_chunks(f, chunks.skip(1), n);
        assert((s.d.pending + c) + rest =~= s.d.pending + (c + rest));
        lemma_response_alike(stream_fed(f, rest), stream_fed(s, c + rest), Seq::empty(), n);
    }
}

/// A response that is not of the shape that is due is refused with what was due
/// instead: an object, a key, the rows in an array, and the end of that array.
pub proof fn a_response_out_of_shape_says_what_was_due(s: StreamerView, token: TokenView)
    requires
        token_taken(s.d).0 == Polled::Ready(Ok::<TokenView, Seq<char>>(token)),
    ensures
        s.place is Opening && token != TokenView::Delim('{') ==> begin_once(s).0 == Outcome::Failed(
            "expected an opening brace for the result"@,
        ),
        s.place is MemberKey && !(token is Key) ==> begin_once(s).0 == Outcome::Failed(
            "expected a string key for the result"@,
        ),
        s.place is RowsOpen && token != TokenView::Delim('[') && token != TokenView::Value(
            seq![0x6eu8, 0x75u8, 0x6cu8, 0x6cu8],
        ) ==> begin_once(s).0 == Outcome::Failed("expected an opening bracket for the rows"@),
        s.place is RowsClose && token != TokenView::Delim(']') ==> begin_once(s).0
            == Outcome::Failed("expected closing ] for the result"@),
        s.place is RowClose && token != TokenView::Delim(']') ==> next_once(s).0 == Outcome::Failed(
            "expected closing ] for the result"@,
        ),
        s.place is NextKey && !(token is Key) && token != TokenView::Delim('}') ==> next_once(s).0
            == Outcome::Failed("expected a string key for the result"@),
{
    reveal(begin_once);
    reveal(next_once);
}

/// What the decoder says of a token or a value is what the reader is told, word
/// for word, and where it needs another chunk the reader waits for one.
pub proof fn what_the_decoder_says_is_passed_on(s: StreamerView)
    ensures
        s.place is Opening || s.place is MemberKey || s.place is RowsOpen || s.place is RowsClose
            ==> match token_taken(s.d).0 {
            Polled::NeedChunk => begin_once(s).0 is Wait,
            Polled::Ready(Err(e)) => begin_once(s).0 == Outcome::Failed(e),
            _ => true,
        },
        s.place is NextKey || s.place is RowClose ==> match token_taken(s.d).0 {
            Polled::NeedChunk => next_once(s).0 is Wait,
            Polled::Ready(Err(e)) => next_once(s).0 == Outcome::Failed(e),
            _ => true,
        },
        s.place is NextRow ==> match decoded(s.d).0 {
            Polled::NeedChunk => next_once(s).0 is Wait,
            Polled::Ready(Err(e)) => next_once(s).0 == Outcome::Failed(e),
            _ => true,
        },
        s.place is NextValue ==> match decoded(s.d).0 {
            Polled::NeedChunk => next_once(s).0 is Wait,
            Polled::Ready(Err(e)) => next_once(s).0 == Outcome::Failed(e),
            Polled::Ready(Ok(raw)) => parsed_value(raw) is Err ==> next_once(s).0
                == Outcome::Failed("failed to parse value: "@ + parsed_value(raw)->Err_0),
        },
        s.place is MemberValue ==> match decoded(s.d).0 {
            Polled::NeedChunk => begin_once(s).0 is Wait,
            Polled::Ready(Err(e)) => begin_once(s).0 == Outcome::Failed(e),
            Polled::Ready(Ok(raw)) => parsed_value(raw) is Err ==> begin_once(s).0
                == Outcome::Failed("failed to parse value: "@ + parsed_value(raw)->Err_0),
        },
{
    reveal(begin_once);
    reveal(next_once);
}

/// Attributes that cannot be written out are an error that says of what: of the
/// prelude, or of the metadata behind the rows.
pub proof fn attributes_that_cannot_be_written_are_an_error(s: StreamerView)
    ensures
        ({
            let (out, after) = begun(s);
            &&& out is Done && object_text(after.attribs) is Err ==> prelude_read(s).0
                == Polled::Ready(
                Err::<Seq<u8>, Seq<char>>(
                    "failed to read prelude: "@ + object_text(after.attribs)->Err_0,
                ),
            )
            &&& out is Done && object_text(after.attribs) is Ok ==> prelude_read(s).0
                == Polled::Ready(Ok::<Seq<u8>, Seq<char>>(object_text(after.attribs)->Ok_0))
            &&& out matches Outcome::Failed(e) ==> prelude_read(s).0 == Polled::Ready(
                Err::<Seq<u8>, Seq<char>>(e),
            )
        }),
        s.place is NextKey && token_taken(s.d).0 == Polled::Ready(
            Ok::<TokenView, Seq<char>>(TokenView::Delim('}')),
        ) && object_text(s.attribs) is Err ==> next_once(s).0 == Outcome::Failed(
            "failed to encode metadata: "@ + object_text(s.attribs)->Err_0,
        ),
{
    reveal(next_once);
}

} // verus!
