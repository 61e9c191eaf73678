//! A streaming scan, and the connection it owns while it runs.
//!
//! A connection is reusable only after its stream has ended: ordering is the
//! only correlation, so a client that stops reading halfway and asks again
//! would take the rest of one scan for the rows of another. So a stream holds
//! its connection, and gives it back only behind a terminator. One that is
//! dropped takes the connection with it.
use std::collections::VecDeque;
use vstd::prelude::*;
use crate::indexerx::client::{
    is_eof, is_reading, is_terminator, is_unexpected, unexpected, Arrival,
};
use crate::indexerx::error::{Error, ErrorKind};
use crate::indexerx::proto::{decode_response, Request, Response, ScanEntry};

verus! {

/// Where a stream is in its life. The three last states say different things
/// of the connection.
#[derive(Debug, Clone, Copy, PartialEq, Eq, Structural)]
pub enum State {
    Streaming,
    /// The terminator arrived: the connection can be handed back.
    Ended,
    /// The indexer refused inside a well-formed packet. The scan is over, and
    /// the terminator is still to be read.
    Refused,
    /// The socket or the framing broke: the connection is gone.
    Failed,
}

/// What a stream has for its reader.
#[derive(Debug)]
pub enum Step {
    Entry(ScanEntry),
    /// Nothing more will come.
    End,
    /// A frame has to be read first.
    ReadFrame,
}

/// The entries of one scan, from one indexer node, and the connection that
/// they arrive on.
pub struct ScanStream<C> {
    client: Option<C>,
    /// Entries of the last packet that were not given out yet.
    buffered: VecDeque<ScanEntry>,
    state: State,
    read_units: Option<u64>,
}

/// Whether a decoded message means an indexer's refusal.
pub open spec fn is_refused(r: Result<Response, Error>) -> bool {
    r matches Err(e) && e.spec_kind() is Server
}

/// What a message does to a stream: the rows it brings, the state and the read
/// units then, and the error for the reader, if any.
pub open spec fn is_received(
    reading: Result<Response, Error>,
    units: Option<u64>,
    rows: Seq<ScanEntry>,
    state: State,
    units_then: Option<u64>,
    r: Result<(), Error>,
) -> bool {
    match reading {
        Ok(Response::Entries(entries)) => rows == entries@ && state == State::Streaming
            && units_then == units && r is Ok,
        Ok(Response::StreamEnd { read_units }) => rows.len() == 0 && state == State::Ended
            && units_then == read_units && r is Ok,
        Ok(other) => rows.len() == 0 && state == State::Failed && units_then == units && (
        r matches Err(e) && is_unexpected(e, "ResponseStream"@, other)),
        Err(e) => rows.len() == 0 && state == (if is_refused(reading) {
            State::Refused
        } else {
            State::Failed
        }) && units_then == units && r == Err::<(), Error>(e),
    }
}

/// What an arrival is to a stream.
pub enum Frame {
    /// Entries, maybe none.
    Batch(Seq<ScanEntry>),
    /// The end of the scan.
    End,
    /// The indexer's refusal.
    Refusal(Error),
    /// Anything that breaks the connection.
    Break(Error),
}

pub open spec fn is_frame(a: Arrival, f: Frame) -> bool {
    match a {
        Arrival::EndFrame => f is End,
        Arrival::Closed => f matches Frame::Break(e) && is_eof(e),
        Arrival::Broken(e) => f == Frame::Break(e),
        Arrival::Message(m) => exists|reading: Result<Response, Error>| #[trigger]
            is_reading(m, reading) && match reading {
                Ok(Response::Entries(entries)) => f == Frame::Batch(entries@),
                Ok(Response::StreamEnd { read_units: _ }) => f is End,
                Ok(other) => f matches Frame::Break(e) && is_unexpected(
                    e,
                    "ResponseStream"@,
                    other,
                ),
                Err(e) => f == (if is_refused(reading) {
                    Frame::Refusal(e)
                } else {
                    Frame::Break(e)
                }),
            },
    }
}

/// A stream, apart from its connection and from what it cost.
pub struct StreamView {
    /// The entries that arrived and were not given out yet, in order.
    pub rows: Seq<ScanEntry>,
    pub state: State,
    /// Whether it still has its connection.
    pub holds: bool,
}

/// What a stream has for its reader, and the stream then.
pub open spec fn next_given(s: StreamView) -> (Step, StreamView) {
    if s.rows.len() > 0 {
        (Step::Entry(s.rows[0]), StreamView { rows: s.rows.drop_first(), ..s })
    } else if s.state == State::Streaming && s.holds {
        (Step::ReadFrame, s)
    } else {
        (Step::End, s)
    }
}

/// What a frame does to a stream that awaits one: the error for the reader, if
/// any, and the stream then.
pub open spec fn frame_taken(s: StreamView, f: Frame) -> (Option<Error>, StreamView) {
    match f {
        Frame::Batch(rows) => (None, StreamView { rows, ..s }),
        Frame::End => (None, StreamView { state: State::Ended, ..s }),
        Frame::Refusal(e) => (Some(e), StreamView { state: State::Refused, ..s }),
        Frame::Break(e) => (Some(e), StreamView { state: State::Failed, ..s }),
    }
}

/// All that a reader is given who asks on and on while these frames arrive, and
/// the stream then.
pub open spec fn given_out(s: StreamView, frames: Seq<Frame>) -> (
    Seq<Result<ScanEntry, Error>>,
    StreamView,
)
    decreases frames.len(), s.rows.len(),
{
    match next_given(s).0 {
        Step::Entry(entry) => {
            let (rest, end) = given_out(next_given(s).1, frames);
            (seq![Ok::<ScanEntry, Error>(entry)] + rest, end)
        },
        Step::End => (Seq::empty(), s),
        Step::ReadFrame => if frames.len() == 0 {
            (Seq::empty(), s)
        } else {
            let (failure, then) = frame_taken(s, frames[0]);
            let (rest, end) = given_out(then, frames.skip(1));
            match failure {
                Some(e) => (seq![Err::<ScanEntry, Error>(e)] + rest, end),
                None => (rest, end),
            }
        },
    }
}

impl<C> ScanStream<C> {
    pub open spec fn life(&self) -> StreamView {
        StreamView { rows: self.rows(), state: self.state(), holds: self.held() is Some }
    }

    /// The entries that arrived and were not given out yet, in order.
    pub closed spec fn rows(&self) -> Seq<ScanEntry> {
        self.buffered@
    }

    pub closed spec fn state(&self) -> State {
        self.state
    }

    pub closed spec fn units(&self) -> Option<u64> {
        self.read_units
    }

    /// The connection, while the stream holds it.
    pub closed spec fn held(&self) -> Option<C> {
        self.client
    }

    /// Whether the stream cannot go on without another frame.
    pub open spec fn awaits_frame(&self) -> bool {
        self.rows().len() == 0 && self.state() == State::Streaming && self.held() is Some
    }

    /// The stream of a scan that was just asked for on `client`.
    pub fn new(client: C) -> (r: Self)
        ensures
            r.held() == Some(client),
            r.rows().len() == 0,
            r.state() == State::Streaming,
            r.units() is None,
    {
        ScanStream {
            client: Some(client),
            buffered: VecDeque::new(),
            state: State::Streaming,
            read_units: None,
        }
    }

    /// The read units this scan consumed: `None` until it has ended, and on a
    /// cluster that does not meter.
    pub fn read_units(&self) -> (r: Option<u64>)
        ensures
            r == self.units(),
    {
        self.read_units
    }

    /// Whether the scan reached its end, as opposed to being abandoned or
    /// having failed.
    pub fn is_ended(&self) -> (r: bool)
        ensures
            r == (self.state() == State::Ended),
    {
        self.state == State::Ended
    }

    /// The connection the stream holds, to read the next frame from.
    pub fn client_mut(&mut self) -> (r: Option<&mut C>)
        ensures
            final(self).rows() == old(self).rows(),
            final(self).state() == old(self).state(),
            final(self).units() == old(self).units(),
            match r {
                Some(c) => old(self).held() == Some(*c) && final(self).held() == Some(*final(c)),
                None => old(self).held() is None && final(self).held() is None,
            },
    {
        self.client.as_mut()
    }

    /// The next entry, in the order in which the indexer sent them. Entries
    /// that arrived are given out before an end or a failure is.
    pub fn next(&mut self) -> (r: Step)
        ensures
            final(self).state() == old(self).state(),
            final(self).units() == old(self).units(),
            final(self).held() == old(self).held(),
            (r, final(self).life()) == next_given(old(self).life()),
            r is ReadFrame <==> old(self).awaits_frame(),
    {
        match self.buffered.pop_front() {
            Some(entry) => {
                assert(self.buffered@ =~= old(self).buffered@.drop_first());
                Step::Entry(entry)
            },
            None => {
                if self.state == State::Streaming && self.client.is_some() {
                    Step::ReadFrame
                } else {
                    Step::End
                }
            },
        }
    }

    /// Takes what arrived where a frame was due. An error is for the reader, as
    /// the stream's last word; `Ok` says to ask for the next entry again. A
    /// batch may be empty, which means nothing. A socket that closes without a
    /// terminator is an error and no end: what was given out may be a prefix.
    pub fn arrived(&mut self, a: Arrival) -> (r: Result<(), Error>)
        requires
            old(self).awaits_frame(),
        ensures
            final(self).held() == old(self).held(),
            match a {
                Arrival::EndFrame => final(self).state() == State::Ended && final(self).units()
                    == old(self).units() && final(self).rows().len() == 0 && r is Ok,
                Arrival::Closed => final(self).state() == State::Failed && final(self).units()
                    == old(self).units() && final(self).rows().len() == 0 && (r matches Err(e)
                    && is_eof(e)),
                Arrival::Broken(e) => final(self).state() == State::Failed && final(self).units()
                    == old(self).units() && final(self).rows().len() == 0 && r == Err::<(), Error>(
                    e,
                ),
                Arrival::Message(m) => exists|reading: Result<Response, Error>|
                    #[trigger] is_reading(m, reading) && is_received(
                        reading,
                        old(self).units(),
                        final(self).rows(),
                        final(self).state(),
                        final(self).units(),
                        r,
                    ),
            },
            exists|f: Frame| #[trigger]
                is_frame(a, f) && final(self).life() == frame_taken(old(self).life(), f).1 && (
                match frame_taken(old(self).life(), f).0 {
                    Some(e) => r == Err::<(), Error>(e),
                    None => r is Ok,
                }),
    {
        let ghost asked = a;
        proof {
            assert(self.buffered@ =~= Seq::<ScanEntry>::empty());
        }
        match a {
            Arrival::EndFrame => {
                self.state = State::Ended;
                assert(is_frame(asked, Frame::End));
                Ok(())
            },
            Arrival::Closed => {
                self.state = State::Failed;
                let e: Error = Error::new_unexpected_eof_error();
                assert(is_frame(asked, Frame::Break(e)));
                Err(e)
            },
            Arrival::Broken(e) => {
                self.state = State::Failed;
                assert(is_frame(asked, Frame::Break(e)));
                Err(e)
            },
            Arrival::Message(m) => {
                let reading: Result<Response, Error> = decode_response(m);
                assert(is_reading(m, reading));
                match reading {
                    Ok(Response::Entries(entries)) => {
                        assert(is_frame(asked, Frame::Batch(entries@)));
                        self.buffer(entries);
                        Ok(())
                    },
                    Ok(Response::StreamEnd { read_units }) => {
                        self.read_units = read_units;
                        self.state = State::Ended;
                        assert(is_frame(asked, Frame::End));
                        Ok(())
                    },
                    Ok(other) => {
                        self.state = State::Failed;
                        let e: Error = unexpected("ResponseStream", &other);
                        assert(is_frame(asked, Frame::Break(e)));
                        Err(e)
                    },
                    Err(e) => {
                        assert(is_frame(
                            asked,
                            if is_refused(reading) {
                                Frame::Refusal(e)
                            } else {
                                Frame::Break(e)
                            },
                        ));
                        self.state = if matches!(e.kind(), ErrorKind::Server(_)) {
                            State::Refused
                        } else {
                            State::Failed
                        };
                        Err(e)
                    },
                }
            },
        }
    }

    fn buffer(&mut self, entries: Vec<ScanEntry>)
        ensures
            final(self).rows() == old(self).rows() + entries@,
            final(self).state() == old(self).state(),
            final(self).units() == old(self).units(),
            final(self).held() == old(self).held(),
    {
        let ghost all = entries@;
        let ghost before = *self;
        for e in it: entries
            invariant
                it.seq() == all,
                self.buffered@ == before.buffered@ + all.take(it.index() as int),
                self.state == before.state,
                self.read_units == before.read_units,
                self.client == before.client,
        {
            self.buffered.push_back(e);
            assert(all.take(it.index() + 1) =~= all.take(it.index() as int).push(e));
            assert(self.buffered@ =~= before.buffered@ + all.take(it.index() + 1));
        }
        assert(all.take(all.len() as int) =~= all);
    }

    /// Recovers the connection where the stream has ended of its own accord,
    /// which leaves nothing to drain. `None` in every other state, and the
    /// second time.
    pub fn take_if_ended(&mut self) -> (r: Option<C>)
        ensures
            final(self).rows() == old(self).rows(),
            final(self).state() == old(self).state(),
            final(self).units() == old(self).units(),
            old(self).state() == State::Ended ==> r == old(self).held() && final(self).held()
                is None,
            old(self).state() != State::Ended ==> r is None && final(self).held()
                == old(self).held(),
    {
        if self.state == State::Ended {
            self.client.take()
        } else {
            None
        }
    }

    /// Ends the scan to recover the connection: at once where the terminator
    /// was read, never where the connection broke or was given back before, and
    /// else by draining. A server that is still streaming is asked to stop
    /// first; one that refused is ending the stream already, and another
    /// request would put the connection out of step.
    pub fn finish(self) -> (r: Finish<C>)
        ensures
            match self.held() {
                None => r matches Finish::Lost(e) && is_eof(e),
                Some(c) => match self.state() {
                    State::Ended => r == Finish::Recovered(c),
                    State::Failed => r matches Finish::Lost(e) && is_eof(e),
                    State::Refused => r matches Finish::Drain(d) && d.client() == c,
                    State::Streaming => r matches Finish::Stop(d, request) && d.client() == c
                        && request@ == (crate::indexerx::wire::QueryPayload {
                        end_stream: Some(crate::indexerx::wire::EndStreamRequest {  }),
                        ..crate::indexerx::wire::blank_payload(
                            crate::indexerx::proto::PROTOBUF_VERSION,
                        )
                    }),
                },
            },
    {
        let client: C = match self.client {
            Some(client) => client,
            None => {
                return Finish::Lost(Error::new_unexpected_eof_error());
            },
        };
        match self.state {
            State::Ended => Finish::Recovered(client),
            State::Failed => Finish::Lost(Error::new_unexpected_eof_error()),
            State::Refused => Finish::Drain(Draining { client }),
            State::Streaming => Finish::Stop(Draining { client }, Request::end_stream()),
        }
    }
}

/// How a finished scan's connection is recovered.
pub enum Finish<C> {
    /// It can be used again at once.
    Recovered(C),
    /// It has to be drained first.
    Drain(Draining<C>),
    /// This has to be sent on it, and then it has to be drained.
    Stop(Draining<C>, Request),
    /// It cannot be trusted any more.
    Lost(Error),
}

/// A connection that still owes the end of a stream.
pub struct Draining<C> {
    client: C,
}

/// What a drained frame leads to.
pub enum Drained<C> {
    /// That was the terminator: the connection can be used again. The read
    /// units are those that the terminator named.
    Recovered(C, Option<u64>),
    /// More is to be read.
    More(Draining<C>),
    /// The connection cannot be trusted any more.
    Lost(Error),
}

/// What a message leads to while a stream is drained. Rows were on their way
/// already, and a refusal has its terminator behind it: both are passed over.
pub open spec fn is_drained<C>(reading: Result<Response, Error>, c: C, r: Drained<C>) -> bool {
    match reading {
        Ok(Response::Entries(_)) => r matches Drained::More(d) && d.client() == c,
        Ok(Response::StreamEnd { read_units }) => r == Drained::Recovered(c, read_units),
        Ok(other) => r matches Drained::Lost(e) && is_unexpected(e, "StreamEndResponse"@, other),
        Err(e) => if is_refused(reading) {
            r matches Drained::More(d) && d.client() == c
        } else {
            r == Drained::<C>::Lost(e)
        },
    }
}

impl<C> Draining<C> {
    pub closed spec fn client(&self) -> C {
        self.client
    }

    /// The connection, to read the next frame from.
    pub fn client_mut(&mut self) -> (r: &mut C)
        ensures
            *r == old(self).client(),
            final(self).client() == *final(r),
    {
        &mut self.client
    }

    /// Takes what arrived.
    pub fn arrived(self, a: Arrival) -> (r: Drained<C>)
        ensures
            r is Recovered <==> is_terminator(a),
            r matches Drained::Recovered(c, _) ==> c == self.client(),
            match a {
                Arrival::EndFrame => r == Drained::Recovered(self.client(), None),
                Arrival::Closed => r matches Drained::Lost(e) && is_eof(e),
                Arrival::Broken(e) => r == Drained::<C>::Lost(e),
                Arrival::Message(m) => exists|reading: Result<Response, Error>|
                    #[trigger] is_reading(m, reading) && is_drained(reading, self.client(), r),
            },
    {
        match a {
            Arrival::EndFrame => Drained::Recovered(self.client, None),
            Arrival::Closed => Drained::Lost(Error::new_unexpected_eof_error()),
            Arrival::Broken(e) => Drained::Lost(e),
            Arrival::Message(m) => {
                let reading: Result<Response, Error> = decode_response(m);
                assert(is_reading(m, reading));
                match reading {
                    Ok(Response::Entries(_)) => Drained::More(self),
                    Ok(Response::StreamEnd { read_units }) => Drained::Recovered(
                        self.client,
                        read_units,
                    ),
                    Ok(other) => Drained::Lost(unexpected("StreamEndResponse", &other)),
                    Err(e) => {
                        if matches!(e.kind(), ErrorKind::Server(_)) {
                            Drained::More(self)
                        } else {
                            Drained::Lost(e)
                        }
                    },
                }
            },
        }
    }
}

/// A message ends a stream exactly where it is a terminator, and a stream that
/// it did not end has no connection to give back.
pub proof fn a_stream_ends_only_at_a_terminator(
    m: Result<crate::indexerx::wire::QueryPayload, String>,
    reading: Result<Response, Error>,
    units: Option<u64>,
    rows: Seq<ScanEntry>,
    state: State,
    units_then: Option<u64>,
    r: Result<(), Error>,
)
    requires
        is_reading(m, reading),
        is_received(reading, units, rows, state, units_then, r),
    ensures
        state == State::Ended <==> is_terminator(Arrival::Message(m)),
        r is Err <==> state == State::Refused || state == State::Failed,
        rows.len() > 0 ==> state == State::Streaming,
{
}

/// While a stream is drained, the connection is recovered from a message
/// exactly where it is a terminator.
pub proof fn a_drained_connection_comes_back_only_behind_a_terminator<C>(
    m: Result<crate::indexerx::wire::QueryPayload, String>,
    reading: Result<Response, Error>,
    c: C,
    r: Drained<C>,
)
    requires
        is_reading(m, reading),
        is_drained(reading, c, r),
    ensures
        r is Recovered <==> is_terminator(Arrival::Message(m)),
{
}

/// The frames that bring these batches.
pub open spec fn framed(batches: Seq<Seq<ScanEntry>>) -> Seq<Frame> {
    batches.map_values(|b: Seq<ScanEntry>| Frame::Batch(b))
}

/// Entries, as a reader is given them.
pub open spec fn as_given(entries: Seq<ScanEntry>) -> Seq<Result<ScanEntry, Error>> {
    entries.map_values(|e: ScanEntry| Ok::<ScanEntry, Error>(e))
}

/// What a reader is told of how a scan came to its end: nothing where it ended
/// as it should, else one error.
pub open spec fn last_word(ending: Frame) -> Seq<Result<ScanEntry, Error>> {
    match ending {
        Frame::Refusal(e) => seq![Err::<ScanEntry, Error>(e)],
        Frame::Break(e) => seq![Err::<ScanEntry, Error>(e)],
        _ => Seq::empty(),
    }
}

proof fn lemma_rows_first(s: StreamView, frames: Seq<Frame>)
    ensures
        ({
            let (rest, end) = given_out(StreamView { rows: Seq::empty(), ..s }, frames);
            given_out(s, frames) == (as_given(s.rows) + rest, end)
        }),
    decreases s.rows.len(),
{
    let (rest, end) = given_out(StreamView { rows: Seq::empty(), ..s }, frames);
    if s.rows.len() > 0 {
        let then = next_given(s).1;
        lemma_rows_first(then, frames);
        assert(as_given(s.rows) + rest =~= seq![Ok::<ScanEntry, Error>(s.rows[0])] + (as_given(
            then.rows,
        ) + rest));
    } else {
        assert(s.rows =~= Seq::empty());
        assert(as_given(s.rows) + rest =~= rest);
    }
}

/// A scan yields the entries of all its batches in order, each once. Then it is
/// over: with no further word where a terminator arrived, and then alone the
/// stream has ended; else with exactly one error. Whatever else arrives,
/// nothing more is given out.
pub proof fn a_stream_gives_every_entry_once_and_one_last_word(
    s: StreamView,
    batches: Seq<Seq<ScanEntry>>,
    ending: Frame,
    later: Seq<Frame>,
)
    requires
        s.rows.len() == 0,
        s.state == State::Streaming,
        s.holds,
        !(ending is Batch),
    ensures
        ({
            let (given, end) = given_out(s, framed(batches) + seq![ending] + later);
            &&& given == as_given(batches.flatten()) + last_word(ending)
            &&& end.state == State::Ended <==> ending is End
            &&& next_given(end) == (Step::End, end)
            &&& given_out(end, later) == (Seq::<Result<ScanEntry, Error>>::empty(), end)
        }),
    decreases batches.len(),
{
    let frames = framed(batches) + seq![ending] + later;
    let rest = frames.skip(1);
    let (failure, then) = frame_taken(s, frames[0]);
    if batches.len() == 0 {
        assert(frames[0] == ending);
        assert(s.rows =~= Seq::empty());
        assert(given_out(then, rest) == (Seq::<Result<ScanEntry, Error>>::empty(), then));
        assert(as_given(batches.flatten()) + last_word(ending) =~= last_word(ending));
        if failure is Some {
            assert(last_word(ending) =~= seq![Err::<ScanEntry, Error>(failure->0)]
                + Seq::<Result<ScanEntry, Error>>::empty());
        }
    } else {
        let b = batches[0];
        let others = batches.drop_first();
        assert(frames[0] == Frame::Batch(b));
        assert(rest =~= framed(others) + seq![ending] + later);
        assert(then == (StreamView { rows: b, ..s }));
        lemma_rows_first(then, rest);
        assert(s.rows =~= Seq::empty());
        a_stream_gives_every_entry_once_and_one_last_word(s, others, ending, later);
        assert(as_given(batches.flatten()) =~= as_given(b) + as_given(others.flatten()));
        assert(as_given(b) + (as_given(others.flatten()) + last_word(ending)) =~= as_given(b)
            + as_given(others.flatten()) + last_word(ending));
    }
}

/// The end of a scan is a terminator, and nothing else is.
pub proof fn a_scan_ends_exactly_at_its_terminator(a: Arrival, f: Frame)
    requires
        is_frame(a, f),
    ensures
        f is End <==> is_terminator(a),
{
}

/// What a message of version 1 is to a stream: rows are handed on as they
/// stand, an error text beside rows or the end is the indexer's refusal, the
/// end without one is the end, and any other message breaks the connection.
pub proof fn a_message_is_what_it_carries(a: Arrival, f: Frame)
    requires
        is_frame(a, f),
    ensures
        a matches Arrival::Message(Ok(p)) ==> (p.version == 1 ==> {
            &&& p.stream matches Some(stream) ==> {
                let refused = stream.err is Some && stream.err->0.error@.len() > 0;
                &&& refused <==> f is Refusal
                &&& !refused ==> (f matches Frame::Batch(rows) && rows.len()
                    == stream.index_entries@.len() && forall|i: int|
                    0 <= i < rows.len() ==> (#[trigger] rows[i]).entry_key
                        == stream.index_entries@[i].entry_key && rows[i].primary_key
                        == stream.index_entries@[i].primary_key)
            }
            &&& p.stream is None ==> (p.stream_end matches Some(end) ==> {
                let refused = end.err is Some && end.err->0.error@.len() > 0;
                &&& refused <==> f is Refusal
                &&& !refused <==> f is End
            })
            &&& p.stream is None && p.stream_end is None && (p.count_response is None
                || p.count_response->0.err is None) ==> f is Break
        }),
        a matches Arrival::Message(Ok(p)) ==> (p.version != 1 ==> f is Break),
        a matches Arrival::Message(Err(_)) ==> f is Break,
        a is Closed ==> f is Break,
        a is Broken ==> f is Break,
        a is EndFrame ==> f is End,
{
}

/// The read units of a scan are those that the message which ended it names.
/// Nothing else that arrives changes them.
pub proof fn read_units_come_with_the_end(
    m: Result<crate::indexerx::wire::QueryPayload, String>,
    reading: Result<Response, Error>,
    units: Option<u64>,
    rows: Seq<ScanEntry>,
    state: State,
    units_then: Option<u64>,
    r: Result<(), Error>,
)
    requires
        is_reading(m, reading),
        is_received(reading, units, rows, state, units_then, r),
    ensures
        state == State::Ended ==> (m matches Ok(p) && p.stream_end is Some && units_then
            == p.stream_end->0.read_units),
        state != State::Ended ==> units_then == units,
{
}

/// What a stream being read or drained does with a message that is neither
/// rows nor its end: the connection is lost, and the error names the message
/// that was due.
pub proof fn a_stream_out_of_step_says_what_was_due<C>(
    other: Response,
    c: C,
    r: Drained<C>,
    units: Option<u64>,
    rows: Seq<ScanEntry>,
    state: State,
    units_then: Option<u64>,
    taken: Result<(), Error>,
)
    requires
        !(other is Entries) && !(other is StreamEnd),
    ensures
        is_drained(Ok(other), c, r) ==> (r matches Drained::Lost(e) && (
        e.spec_kind() matches ErrorKind::Parse(
            crate::indexerx::proto::ParseError::UnexpectedMessage { expected: wanted, got: name },
        ) && wanted@ == "StreamEndResponse"@ && name@ == other.kind_name())),
        is_received(Ok(other), units, rows, state, units_then, taken) ==> state == State::Failed
            && rows.len() == 0 && units_then == units && (taken matches Err(e) && (
        e.spec_kind() matches ErrorKind::Parse(
            crate::indexerx::proto::ParseError::UnexpectedMessage { expected: wanted, got: name },
        ) && wanted@ == "ResponseStream"@ && name@ == other.kind_name())),
{
}

/// A frame is waited for exactly where everything that arrived was given out,
/// the scan goes on and the connection is still there.
pub proof fn a_frame_is_waited_for_where_nothing_is_left<C>(s: ScanStream<C>)
    ensures
        s.awaits_frame() <==> s.life().rows.len() == 0 && s.life().state == State::Streaming
            && s.life().holds,
{
}

} // verus!
