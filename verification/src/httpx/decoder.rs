//! A JSON response taken apart into tokens and values as it arrives.
//!
//! The response comes in chunks. A call that needs more than has arrived says
//! so and leaves everything as it is; once another chunk was handed in, the
//! same call goes on where it left off. Where the chunks were cut makes no
//! difference to what comes out.
use bytes::Bytes;
use vstd::prelude::*;
use vstd::slice::*;
use vstd::string::*;
use crate::buffer::{octets, octets_copied, octets_len, octets_none, octets_part, octets_slice};
use crate::httpx::error::Error;
use crate::httpx::scanner::{at_start, refusal, stepped, Lex, ScanState, ScanView, Scanner};
use crate::text::owned;

verus! {

/// How much of its chunk a value may keep alive before it is copied out
/// instead: a value that is handed out as a part of its chunk holds the whole
/// chunk for as long as it is held.
pub const MAX_PIN_RATIO: usize = 4;

/// What is expected next.
#[derive(Copy, Clone, Debug, PartialEq, Eq, Structural)]
pub enum TokenState {
    TopValue,
    ArrayStart,
    ArrayValue,
    ArrayComma,
    ObjectStart,
    ObjectKey,
    ObjectColon,
    ObjectValue,
    ObjectComma,
}

#[derive(Clone, Debug, PartialEq)]
pub enum Token {
    Delim(char),
    /// An object's key.
    String(String),
    /// A whole value, as it was sent.
    Value(Bytes),
}

/// A token, apart from how it is stored.
pub enum TokenView {
    Delim(char),
    Key(Seq<char>),
    Value(Seq<u8>),
}

impl View for Token {
    type V = TokenView;

    open spec fn view(&self) -> TokenView {
        match self {
            Token::Delim(c) => TokenView::Delim(*c),
            Token::String(s) => TokenView::Key(s@),
            Token::Value(v) => TokenView::Value(octets(*v)),
        }
    }
}

/// An answer, or the wish for another chunk first.
pub enum Polled<T> {
    Ready(T),
    NeedChunk,
}

/// White space between tokens.
pub open spec fn is_space(c: u8) -> bool {
    c == 0x20 || c == 0x09 || c == 0x0a || c == 0x0c || c == 0x0d
}

/// `s` without the white space at its start.
pub open spec fn skip_space(s: Seq<u8>) -> Seq<u8>
    decreases s.len(),
{
    if s.len() > 0 && is_space(s[0]) {
        skip_space(s.skip(1))
    } else {
        s
    }
}

/// `s` without the white space at its end.
pub open spec fn drop_space(s: Seq<u8>) -> Seq<u8>
    decreases s.len(),
{
    if s.len() > 0 && is_space(s.last()) {
        drop_space(s.drop_last())
    } else {
        s
    }
}

/// `s` without the white space around it.
pub open spec fn trimmed(s: Seq<u8>) -> Seq<u8> {
    drop_space(skip_space(s))
}

/// How far the value at the front of some bytes reaches.
pub enum Extent {
    /// It is complete and takes up this many bytes.
    Whole(int),
    /// It is no JSON.
    Refused(Seq<char>),
    /// It may go on; the scanner stands here.
    Open(ScanView),
}

/// How far the value reaches, the scanner standing in front of the byte at
/// `at`. A literal ends in front of the byte behind it, an object or an array
/// with its closing byte.
pub open spec fn extent_from(s: ScanView, bytes: Seq<u8>, at: int) -> Extent
    decreases bytes.len() - at,
{
    if at < 0 || at >= bytes.len() {
        Extent::Open(s)
    } else {
        let (next, code) = stepped(s, bytes[at]);
        if code == ScanState::End {
            Extent::Whole(at)
        } else if (code == ScanState::EndObject || code == ScanState::EndArray)
            && next.stack.len() == 0 {
            Extent::Whole(at + 1)
        } else if code == ScanState::Error {
            Extent::Refused(next.err->0)
        } else {
            extent_from(next, bytes, at + 1)
        }
    }
}

/// How far the value at the front of `bytes` reaches.
pub open spec fn extent(bytes: Seq<u8>) -> Extent {
    extent_from(at_start(), bytes, 0)
}

/// The decoder's state, apart from how it is stored.
pub struct DecoderView {
    /// What has arrived and is not consumed yet.
    pub pending: Seq<u8>,
    /// The response is over.
    pub ended: bool,
    /// The transport failed; not reported yet.
    pub arrived: Option<Seq<char>>,
    /// What every further value is answered with.
    pub err: Option<Seq<char>>,
    pub state: TokenState,
    pub stack: Seq<TokenState>,
    /// A value is being read and has to wait for a chunk.
    pub reading: bool,
    /// How much of what is pending of that value arrived in earlier chunks.
    pub carried: nat,
}

impl DecoderView {
    /// Nothing is being read, and these bytes are pending.
    pub open spec fn at(self, pending: Seq<u8>) -> DecoderView {
        DecoderView { pending, reading: false, carried: 0, ..self }
    }

    /// What is pending of the chunk that came last.
    pub open spec fn newest(self) -> Seq<u8> {
        if self.carried <= self.pending.len() {
            self.pending.skip(self.carried as int)
        } else {
            Seq::empty()
        }
    }
}

/// What stands next, white space aside.
pub enum Peeked {
    Byte(u8),
    Failed(Seq<char>),
    AtEnd,
    NeedChunk,
}

/// Looks at the next byte that is not white space. The white space in front of
/// it is consumed, and so is a failure of the transport.
pub open spec fn peeked(d: DecoderView) -> (Peeked, DecoderView) {
    let rest = skip_space(d.pending);
    if rest.len() > 0 {
        (
            Peeked::Byte(rest[0]),
            if rest == d.pending {
                d
            } else {
                d.at(rest)
            },
        )
    } else if d.arrived is Some {
        (Peeked::Failed(d.arrived->0), DecoderView { arrived: None, ..d.at(rest) })
    } else if d.ended {
        (Peeked::AtEnd, d.at(rest))
    } else {
        (Peeked::NeedChunk, d.at(rest))
    }
}

/// Whether a value may stand next.
pub open spec fn value_allowed(state: TokenState) -> bool {
    state == TokenState::TopValue || state == TokenState::ArrayStart || state
        == TokenState::ArrayValue || state == TokenState::ObjectValue
}

/// What is expected behind a value.
pub open spec fn behind_value(state: TokenState) -> TokenState {
    match state {
        TokenState::ArrayStart => TokenState::ArrayComma,
        TokenState::ArrayValue => TokenState::ArrayComma,
        TokenState::ObjectValue => TokenState::ObjectComma,
        other => other,
    }
}

/// Reads the value at the front: its bytes without the white space around
/// them. At the end of the response a value that may end there does, and one
/// that was begun fails. Where nothing but white space is left, all of it in
/// one chunk, the value is empty. A read that fails gives up what it had from
/// earlier chunks.
pub open spec fn value_read(d: DecoderView) -> (Polled<Result<Seq<u8>, Seq<char>>>, DecoderView) {
    match extent(d.pending) {
        Extent::Whole(n) => (
            Polled::Ready(Ok(trimmed(d.pending.take(n)))),
            d.at(d.pending.skip(n)),
        ),
        Extent::Refused(text) => (
            Polled::Ready(Err(text)),
            DecoderView { err: Some(text), ..d.at(d.newest()) },
        ),
        Extent::Open(s) => if d.arrived is Some {
            (
                Polled::Ready(Err(d.arrived->0)),
                DecoderView { err: d.arrived, arrived: None, ..d.at(d.newest()) },
            )
        } else if !d.ended {
            (Polled::NeedChunk, DecoderView { reading: true, ..d })
        } else if stepped(s, 0x20).1 == ScanState::End || (d.carried == 0 && skip_space(
            d.pending,
        ).len() == 0) {
            (Polled::Ready(Ok(trimmed(d.pending))), d.at(Seq::empty()))
        } else {
            (
                Polled::Ready(Err("unexpected EOF"@)),
                DecoderView { err: Some("unexpected EOF"@), ..d.at(d.newest()) },
            )
        },
    }
}

/// Steps over the comma or the colon that has to stand in front of a value.
/// `None` where it is stepped over or none is due.
pub open spec fn separated(d: DecoderView) -> (
    Option<Polled<Result<Seq<u8>, Seq<char>>>>,
    DecoderView,
) {
    let (sep, complaint, next) = match d.state {
        TokenState::ArrayComma => (
            0x2cu8,
            "expected comma after array element"@,
            TokenState::ArrayValue,
        ),
        _ => (0x3au8, "expected colon after object key"@, TokenState::ObjectValue),
    };
    if d.state == TokenState::ArrayComma || d.state == TokenState::ObjectColon {
        let (seen, d1) = peeked(d);
        match seen {
            Peeked::Byte(c) => if c == sep {
                (None, DecoderView { state: next, ..d1.at(d1.pending.skip(1)) })
            } else {
                (Some(Polled::Ready(Err(complaint))), d1)
            },
            Peeked::Failed(e) => (Some(Polled::Ready(Err(e))), d1),
            Peeked::AtEnd => (Some(Polled::Ready(Err("unexpected EOF"@))), d1),
            Peeked::NeedChunk => (Some(Polled::NeedChunk), d1),
        }
    } else {
        (None, d)
    }
}

/// Reads a whole value.
#[verifier::opaque]
pub open spec fn decoded(d: DecoderView) -> (Polled<Result<Seq<u8>, Seq<char>>>, DecoderView) {
    if d.err is Some {
        (Polled::Ready(Err(d.err->0)), d)
    } else {
        let (stop, d1) = separated(d);
        if stop is Some {
            (stop->0, d1)
        } else if !value_allowed(d1.state) {
            (Polled::Ready(Err("not at beginning of value"@)), d1)
        } else {
            let (answer, d2) = value_read(d1);
            match answer {
                Polled::Ready(Ok(_)) => (
                    answer,
                    DecoderView { state: behind_value(d1.state), ..d2 },
                ),
                _ => (answer, d2),
            }
        }
    }
}

/// What `serde_json::from_slice` makes of bytes that should hold one JSON
/// string: the string, or what it says is wrong.
pub uninterp spec fn json_string(bytes: Seq<u8>) -> Result<Seq<char>, Seq<char>>;

/// A character that stands in a JSON string as itself.
pub open spec fn is_plain(c: u8) -> bool {
    0x20 <= c < 0x7f && c != 0x22 && c != 0x5c
}

/// `serde_json::from_slice::<String>`, whose result is named `json_string`.
/// Believed of it besides: printable ASCII characters in quotes, none of them
/// a quote or a backslash, are the string of those characters.
#[verifier::external_body]
fn parse_json_string(bytes: &[u8]) -> (r: Result<String, String>)
    ensures
        match json_string(bytes@) {
            Ok(s) => r is Ok && r->Ok_0@ == s,
            Err(e) => r is Err && r->Err_0@ == e,
        },
        ({
            let inner = bytes@.subrange(1, bytes@.len() - 1);
            bytes@.len() >= 2 && bytes@[0] == 0x22 && bytes@.last() == 0x22 && (forall|i: int|
                0 <= i < inner.len() ==> is_plain(#[trigger] inner[i])) ==> r is Ok && r->Ok_0@
                == inner.map_values(|c: u8| c as char)
        }),
{
    serde_json::from_slice::<String>(bytes).map_err(|e| e.to_string())
}

/// Why a byte is out of place.
pub open spec fn out_of_place(state: TokenState, c: u8) -> Seq<char> {
    refusal(
        c,
        match state {
            TokenState::TopValue => " looking for beginning of value"@,
            TokenState::ArrayStart => " looking for beginning of value"@,
            TokenState::ArrayValue => " looking for beginning of value"@,
            TokenState::ObjectValue => " looking for beginning of value"@,
            TokenState::ArrayComma => " after array element"@,
            TokenState::ObjectKey => " looking for beginning of object key string"@,
            TokenState::ObjectColon => " after object key"@,
            TokenState::ObjectComma => " after object key:value pair"@,
            TokenState::ObjectStart => ""@,
        },
    )
}

pub open spec fn misplaced(d: DecoderView, c: u8) -> (
    Option<Polled<Result<TokenView, Seq<char>>>>,
    DecoderView,
) {
    (Some(Polled::Ready(Err(out_of_place(d.state, c)))), d)
}

pub open spec fn opened(d: DecoderView, c: u8, delim: char, state: TokenState) -> (
    Option<Polled<Result<TokenView, Seq<char>>>>,
    DecoderView,
) {
    if value_allowed(d.state) {
        (
            Some(Polled::Ready(Ok(TokenView::Delim(delim)))),
            DecoderView {
                state,
                stack: d.stack.push(d.state),
                ..d.at(d.pending.skip(1))
            },
        )
    } else {
        misplaced(d, c)
    }
}

pub open spec fn closed_by(d: DecoderView, c: u8, delim: char, a: TokenState, b: TokenState) -> (
    Option<Polled<Result<TokenView, Seq<char>>>>,
    DecoderView,
) {
    if d.state == a || d.state == b {
        (
            Some(Polled::Ready(Ok(TokenView::Delim(delim)))),
            DecoderView {
                state: behind_value(d.stack.last()),
                stack: d.stack.drop_last(),
                ..d.at(d.pending.skip(1))
            },
        )
    } else {
        misplaced(d, c)
    }
}

/// Reads an object's key.
pub open spec fn key_read(d: DecoderView) -> (Polled<Result<TokenView, Seq<char>>>, DecoderView) {
    if d.err is Some {
        (
            Polled::Ready(Err(d.err->0)),
            DecoderView { state: TokenState::TopValue, ..d },
        )
    } else {
        let (answer, d1) = value_read(d);
        match answer {
            Polled::NeedChunk => (Polled::NeedChunk, d1),
            Polled::Ready(Err(e)) => (
                Polled::Ready(Err(e)),
                DecoderView { state: TokenState::TopValue, ..d1 },
            ),
            Polled::Ready(Ok(raw)) => match json_string(raw) {
                Ok(key) => (
                    Polled::Ready(Ok(TokenView::Key(key))),
                    DecoderView { state: TokenState::ObjectColon, ..d1 },
                ),
                Err(e) => (
                    Polled::Ready(Err(e)),
                    DecoderView { state: TokenState::TopValue, ..d1 },
                ),
            },
        }
    }
}

/// Reads a value as a token.
pub open spec fn value_token(d: DecoderView, c: u8) -> (
    Option<Polled<Result<TokenView, Seq<char>>>>,
    DecoderView,
) {
    if value_allowed(d.state) {
        let (answer, d1) = decoded(d);
        (
            Some(
                match answer {
                    Polled::NeedChunk => Polled::NeedChunk,
                    Polled::Ready(Ok(v)) => Polled::Ready(Ok(TokenView::Value(v))),
                    Polled::Ready(Err(e)) => Polled::Ready(Err(e)),
                },
            ),
            d1,
        )
    } else {
        misplaced(d, c)
    }
}

/// Looks at the next byte and takes the token that it begins. `None` where it
/// was a colon or a comma in its place, which is no token.
#[verifier::opaque]
pub open spec fn token_here(d: DecoderView) -> (
    Option<Polled<Result<TokenView, Seq<char>>>>,
    DecoderView,
) {
    let (seen, d1) = peeked(d);
    match seen {
        Peeked::Failed(e) => (Some(Polled::Ready(Err(e))), d1),
        Peeked::AtEnd => (Some(Polled::Ready(Err("unexpected EOF"@))), d1),
        Peeked::NeedChunk => (Some(Polled::NeedChunk), d1),
        Peeked::Byte(c) => if c == 0x5b {
            opened(d1, c, '[', TokenState::ArrayStart)
        } else if c == 0x5d {
            closed_by(d1, c, ']', TokenState::ArrayStart, TokenState::ArrayComma)
        } else if c == 0x7b {
            opened(d1, c, '{', TokenState::ObjectStart)
        } else if c == 0x7d {
            closed_by(d1, c, '}', TokenState::ObjectStart, TokenState::ObjectComma)
        } else if c == 0x3a {
            if d1.state == TokenState::ObjectColon {
                (
                    None,
                    DecoderView { state: TokenState::ObjectValue, ..d1.at(d1.pending.skip(1)) },
                )
            } else {
                misplaced(d1, c)
            }
        } else if c == 0x2c {
            if d1.state == TokenState::ArrayComma {
                (
                    None,
                    DecoderView { state: TokenState::ArrayValue, ..d1.at(d1.pending.skip(1)) },
                )
            } else if d1.state == TokenState::ObjectComma {
                (
                    None,
                    DecoderView { state: TokenState::ObjectKey, ..d1.at(d1.pending.skip(1)) },
                )
            } else {
                misplaced(d1, c)
            }
        } else if c == 0x22 && (d1.state == TokenState::ObjectStart || d1.state
            == TokenState::ObjectKey) {
            let (answer, d2) = key_read(d1);
            (Some(answer), d2)
        } else {
            value_token(d1, c)
        },
    }
}

/// The next token. At most one separator stands in front of it.
#[verifier::opaque]
pub open spec fn token_taken(d: DecoderView) -> (
    Polled<Result<TokenView, Seq<char>>>,
    DecoderView,
) {
    let (first, d1) = token_here(d);
    if first is Some {
        (first->0, d1)
    } else {
        let (second, d2) = token_here(d1);
        (second->0, d2)
    }
}

/// Whether another element follows in the array or object at hand.
#[verifier::opaque]
pub open spec fn more_to_come(d: DecoderView) -> (Polled<bool>, DecoderView) {
    let (seen, d1) = peeked(d);
    (
        match seen {
            Peeked::Byte(c) => Polled::Ready(c != 0x5d && c != 0x7d),
            Peeked::Failed(_) => Polled::Ready(false),
            Peeked::AtEnd => Polled::Ready(false),
            Peeked::NeedChunk => Polled::NeedChunk,
        },
        d1,
    )
}

proof fn lemma_skip_space(s: Seq<u8>, n: int)
    requires
        0 <= n <= s.len(),
        forall|i: int| 0 <= i < n ==> is_space(#[trigger] s[i]),
        n < s.len() ==> !is_space(s[n]),
    ensures
        skip_space(s) == s.skip(n),
    decreases n,
{
    if n > 0 {
        assert(is_space(s[0]));
        let t = s.skip(1);
        assert forall|i: int| 0 <= i < n - 1 implies is_space(#[trigger] t[i]) by {
            assert(is_space(s[i + 1]));
        }
        lemma_skip_space(t, n - 1);
        assert(t.skip(n - 1) =~= s.skip(n));
    } else {
        assert(s.skip(0) =~= s);
    }
}

proof fn lemma_drop_space(s: Seq<u8>, n: int)
    requires
        0 <= n <= s.len(),
        forall|i: int| n <= i < s.len() ==> is_space(#[trigger] s[i]),
        n > 0 ==> !is_space(s[n - 1]),
    ensures
        drop_space(s) == s.take(n),
    decreases s.len() - n,
{
    if n < s.len() {
        assert(is_space(s[s.len() - 1]));
        lemma_drop_space(s.drop_last(), n);
        assert(s.drop_last().take(n) =~= s.take(n));
    } else {
        assert(s.take(n) =~= s);
    }
}

fn space(c: u8) -> (r: bool)
    ensures
        r == is_space(c),
{
    c == 0x20 || c == 0x09 || c == 0x0a || c == 0x0c || c == 0x0d
}

/// Where the bytes begin and end once the white space around them is left out.
fn trim_bounds(s: &[u8]) -> (r: (usize, usize))
    ensures
        r.0 <= r.1 <= s@.len(),
        s@.subrange(r.0 as int, r.1 as int) == trimmed(s@),
{
    let mut from: usize = 0;
    while from < s.len() && space(s[from])
        invariant
            from <= s.len(),
            forall|i: int| 0 <= i < from ==> is_space(#[trigger] s@[i]),
        decreases s.len() - from,
    {
        from += 1;
    }
    let mut to: usize = s.len();
    while to > from && space(s[to - 1])
        invariant
            from <= to <= s.len(),
            forall|i: int| to <= i < s@.len() ==> is_space(#[trigger] s@[i]),
        decreases to,
    {
        to -= 1;
    }
    proof {
        lemma_skip_space(s@, from as int);
        let rest = s@.skip(from as int);
        assert forall|i: int| to - from <= i < rest.len() implies is_space(#[trigger] rest[i]) by {
            assert(is_space(s@[i + from]));
        }
        lemma_drop_space(rest, to - from);
        assert(rest.take(to - from) =~= s@.subrange(from as int, to as int));
    }
    (from, to)
}

/// Whether a value of `len` bytes is handed out as a part of its chunk: only
/// where the chunk is at most four times as long.
pub fn keeps_chunk(len: usize, chunk_len: usize) -> (r: bool)
    ensures
        r == (len * MAX_PIN_RATIO >= chunk_len),
{
    let quarter: usize = chunk_len / MAX_PIN_RATIO + if chunk_len % MAX_PIN_RATIO == 0 {
        0
    } else {
        1
    };
    len >= quarter
}

/// What has arrived after `bytes` did too.
pub open spec fn fed(d: DecoderView, bytes: Seq<u8>) -> DecoderView {
    DecoderView {
        pending: d.pending + bytes,
        reading: d.reading && bytes.len() == 0,
        carried: if d.reading {
            d.pending.len()
        } else {
            d.carried
        },
        ..d
    }
}

/// Whether the byte that led to `next` ended the value or was refused.
pub open spec fn is_over(next: ScanView, code: ScanState) -> bool {
    code == ScanState::End || code == ScanState::Error || ((code == ScanState::EndObject || code
        == ScanState::EndArray) && next.stack.len() == 0)
}

/// Where the scanner stands behind the first `n` bytes, the value not being
/// over by then.
pub open spec fn scanned(bytes: Seq<u8>, n: int) -> Option<ScanView>
    decreases n,
{
    if n <= 0 {
        Some(at_start())
    } else {
        match scanned(bytes, n - 1) {
            Some(s) => {
                let (next, code) = stepped(s, bytes[n - 1]);
                if is_over(next, code) {
                    None
                } else {
                    Some(next)
                }
            },
            None => None,
        }
    }
}

proof fn lemma_scanned(bytes: Seq<u8>, n: int)
    requires
        0 <= n <= bytes.len(),
        scanned(bytes, n) is Some,
    ensures
        extent(bytes) == extent_from(scanned(bytes, n)->0, bytes, n),
        scanned(bytes, n)->0.lex != Lex::Failed,
    decreases n,
{
    if n > 0 {
        lemma_scanned(bytes, n - 1);
        lemma_closing(scanned(bytes, n - 1)->0, bytes[n - 1]);
    }
}

proof fn lemma_scanned_extends(bytes: Seq<u8>, more: Seq<u8>, n: int)
    requires
        0 <= n <= bytes.len(),
    ensures
        scanned(bytes + more, n) == scanned(bytes, n),
    decreases n,
{
    if n > 0 {
        lemma_scanned_extends(bytes, more, n - 1);
        assert((bytes + more)[n - 1] == bytes[n - 1]);
    }
}

/// A closing byte leaves the scanner behind the top value or behind an
/// enclosed one.
proof fn lemma_closing(s: ScanView, c: u8)
    ensures
        ({
            let (next, code) = stepped(s, c);
            (code == ScanState::EndObject || code == ScanState::EndArray) ==> {
                &&& (stepped(next, 0x20).1 == ScanState::End) == (next.stack.len() == 0)
                &&& next.stack.len() > 0 ==> stepped(next, 0x20).0 == next
            }
        }),
        stepped(s, c).1 == ScanState::Error && s.lex != Lex::Failed ==> stepped(s, c).0.err is Some,
        stepped(s, c).0.lex == Lex::Failed ==> stepped(s, c).1 == ScanState::Error || stepped(
            s,
            c,
        ).1 == ScanState::End,
{
    reveal(stepped);
}

/// Appends the bytes from `from` on.
fn push_from(out: &mut Vec<u8>, bytes: &[u8], from: usize, to: usize)
    requires
        from <= to <= bytes@.len(),
    ensures
        final(out)@ == old(out)@ + bytes@.subrange(from as int, to as int),
{
    let ghost before = out@;
    let mut i: usize = from;
    assert(before + bytes@.subrange(from as int, from as int) =~= before);
    while i < to
        invariant
            from <= i <= to <= bytes@.len(),
            out@ == before + bytes@.subrange(from as int, i as int),
        decreases to - i,
    {
        out.push(bytes[i]);
        assert(before + bytes@.subrange(from as int, i + 1) =~= (before + bytes@.subrange(
            from as int,
            i as int,
        )).push(bytes@[i as int]));
        i += 1;
    }
}

/// Taking apart a JSON response that arrives in chunks.
pub struct Decoder {
    /// The chunk being scanned, as the transport handed it over.
    chunk: Bytes,
    /// The leading part of a value that began in an earlier chunk.
    carry: Vec<u8>,
    /// Where what is pending starts in the chunk.
    start: usize,
    /// How far the chunk is scanned.
    scanp: usize,
    /// A value is being read; the scanner has seen what is pending up to
    /// `scanp`.
    reading: bool,
    scan: Scanner,
    arrived: Option<Error>,
    ended: bool,
    err: Option<Error>,
    token_state: TokenState,
    token_stack: Vec<TokenState>,
}

pub open spec fn err_text(e: Option<Error>) -> Option<Seq<char>> {
    match e {
        Some(e) => Some(e.msg@),
        None => None,
    }
}

/// What a polled result says, apart from how it is stored.
pub open spec fn value_said(r: Polled<Result<Bytes, Error>>) -> Polled<
    Result<Seq<u8>, Seq<char>>,
> {
    match r {
        Polled::NeedChunk => Polled::NeedChunk,
        Polled::Ready(Ok(v)) => Polled::Ready(Ok(octets(v))),
        Polled::Ready(Err(e)) => Polled::Ready(Err(e.msg@)),
    }
}

pub open spec fn token_said(r: Polled<Result<Token, Error>>) -> Polled<
    Result<TokenView, Seq<char>>,
> {
    match r {
        Polled::NeedChunk => Polled::NeedChunk,
        Polled::Ready(Ok(t)) => Polled::Ready(Ok(t@)),
        Polled::Ready(Err(e)) => Polled::Ready(Err(e.msg@)),
    }
}

enum Seen {
    Byte(u8),
    Failed(Error),
    AtEnd,
    NeedChunk,
}

spec fn seen_said(s: Seen) -> Peeked {
    match s {
        Seen::Byte(c) => Peeked::Byte(c),
        Seen::Failed(e) => Peeked::Failed(e.msg@),
        Seen::AtEnd => Peeked::AtEnd,
        Seen::NeedChunk => Peeked::NeedChunk,
    }
}

impl View for Decoder {
    type V = DecoderView;

    closed spec fn view(&self) -> DecoderView {
        DecoderView {
            pending: self.carry@ + octets(self.chunk).skip(self.start as int),
            ended: self.ended,
            arrived: err_text(self.arrived),
            err: err_text(self.err),
            state: self.token_state,
            stack: self.token_stack@,
            reading: self.reading && self.scanp == octets(self.chunk).len(),
            carried: self.carry@.len(),
        }
    }
}

/// What encloses the place at hand goes down to the top.
pub open spec fn well_nested(d: DecoderView) -> bool {
    &&& d.stack.len() > 0 ==> d.stack[0] == TokenState::TopValue
    &&& d.state != TokenState::TopValue ==> d.stack.len() > 0
}

impl Decoder {
    /// The parts fit together: what is carried and how far the scanner got
    /// belong to a value being read.
    pub closed spec fn wf(&self) -> bool {
        &&& self.start <= self.scanp <= octets(self.chunk).len()
        &&& !self.reading ==> self.scanp == self.start && self.carry@.len() == 0
        &&& self.reading ==> scanned(
            self@.pending,
            self.carry@.len() + self.scanp - self.start,
        ) == Some(self.scan@)
        &&& well_nested(self@)
    }

    spec fn shaped(&self) -> bool {
        &&& self.start <= octets(self.chunk).len()
        &&& well_nested(self@)
    }

    /// A decoder to which nothing has arrived yet.
    pub fn new() -> (r: Decoder)
        ensures
            r.wf(),
            r@ == (DecoderView {
                pending: Seq::empty(),
                ended: false,
                arrived: None,
                err: None,
                state: TokenState::TopValue,
                stack: Seq::empty(),
                reading: false,
                carried: 0,
            }),
    {
        let r = Decoder {
            chunk: octets_none(),
            carry: Vec::new(),
            start: 0,
            scanp: 0,
            reading: false,
            scan: Scanner::new(),
            arrived: None,
            ended: false,
            err: None,
            token_state: TokenState::TopValue,
            token_stack: Vec::new(),
        };
        assert(r@.pending =~= Seq::<u8>::empty());
        r
    }

    /// Hands in the next chunk. A value that began in the chunk before is
    /// carried over; nothing else is copied.
    pub fn feed(&mut self, next: Bytes)
        requires
            old(self).wf(),
        ensures
            final(self).wf(),
            final(self)@ == fed(old(self)@, octets(next)),
    {
        let ghost before = self@;
        let ghost at = self.carry@.len() + self.scanp - self.start;
        let len: usize = octets_len(&self.chunk);
        if self.reading && self.scanp == len {
            let mut carry: Vec<u8> = Vec::new();
            std::mem::swap(&mut carry, &mut self.carry);
            push_from(&mut carry, octets_slice(&self.chunk), self.start, len);
            std::mem::swap(&mut carry, &mut self.carry);
            proof {
                assert(octets(self.chunk).subrange(self.start as int, len as int)
                    =~= octets(self.chunk).skip(self.start as int));
                assert(self.carry@ == before.pending);
            }
            self.chunk = next;
            self.start = 0;
            self.scanp = 0;
        } else if !self.reading && self.start == len {
            self.chunk = next;
            self.start = 0;
            self.scanp = 0;
        } else {
            let mut all: Vec<u8> = Vec::new();
            push_from(&mut all, octets_slice(&self.chunk), 0, len);
            push_from(&mut all, octets_slice(&next), 0, octets_len(&next));
            self.chunk = octets_copied(all.as_slice());
            proof {
                assert(octets(next).subrange(0, octets(next).len() as int) =~= octets(next));
            }
        }
        proof {
            assert(self@.pending =~= before.pending + octets(next));
            if self.reading {
                lemma_scanned_extends(before.pending, octets(next), at);
            }
        }
    }

    /// The transport failed.
    pub fn feed_error(&mut self, e: Error)
        requires
            old(self).wf(),
        ensures
            final(self).wf(),
            final(self)@ == (DecoderView { arrived: Some(e.msg@), ..old(self)@ }),
    {
        self.arrived = Some(e);
    }

    /// The response is over.
    pub fn feed_end(&mut self)
        requires
            old(self).wf(),
        ensures
            final(self).wf(),
            final(self)@ == (DecoderView { ended: true, ..old(self)@ }),
    {
        self.ended = true;
    }

    /// Gives up on a value being read, and on what of it is from earlier chunks.
    fn give_up(&mut self)
        requires
            old(self).shaped(),
        ensures
            final(self).wf(),
            final(self)@ == old(self)@.at(old(self)@.newest()),
    {
        let ghost before = self@;
        self.carry = Vec::new();
        self.scanp = self.start;
        self.reading = false;
        assert(self@.pending =~= before.newest());
    }

    /// Gives up on a value being read; what is pending stays.
    fn settle(&mut self)
        requires
            old(self).shaped(),
        ensures
            final(self).wf(),
            final(self)@ == old(self)@.at(old(self)@.pending),
            !final(self).reading,
    {
        let ghost before = self@;
        if self.carry.len() > 0 {
            let mut all: Vec<u8> = Vec::new();
            std::mem::swap(&mut all, &mut self.carry);
            push_from(&mut all, octets_slice(&self.chunk), self.start, octets_len(&self.chunk));
            self.chunk = octets_copied(all.as_slice());
            self.start = 0;
        }
        self.scanp = self.start;
        self.reading = false;
        assert(self@.pending =~= before.pending);
    }

    fn peek(&mut self) -> (r: Seen)
        requires
            old(self).wf(),
        ensures
            final(self).wf(),
            (seen_said(r), final(self)@) == peeked(old(self)@),
    {
        let ghost before = self@;
        if self.carry.len() > 0 {
            let c: u8 = self.carry[0];
            if !space(c) {
                proof {
                    lemma_skip_space(before.pending, 0);
                    assert(before.pending.skip(0) =~= before.pending);
                }
                return Seen::Byte(c);
            }
        } else if self.start < octets_len(&self.chunk) {
            let c: u8 = octets_slice(&self.chunk)[self.start];
            if !space(c) {
                proof {
                    lemma_skip_space(before.pending, 0);
                    assert(before.pending.skip(0) =~= before.pending);
                }
                return Seen::Byte(c);
            }
        }
        self.settle();
        let bytes: &[u8] = octets_slice(&self.chunk);
        let mut i: usize = self.start;
        while i < bytes.len() && space(bytes[i])
            invariant
                self.start <= i <= bytes@.len(),
                forall|k: int| self.start <= k < i ==> is_space(#[trigger] bytes@[k]),
            decreases bytes.len() - i,
        {
            i += 1;
        }
        let found: Option<u8> = if i < bytes.len() {
            Some(bytes[i])
        } else {
            None
        };
        proof {
            let n = i - self.start;
            assert forall|k: int| 0 <= k < n implies is_space(#[trigger] before.pending[k]) by {
                assert(is_space(bytes@[self.start + k]));
            }
            lemma_skip_space(before.pending, n);
            assert(octets(self.chunk).skip(i as int) =~= before.pending.skip(n));
            if before.pending.len() > 0 {
                assert(is_space(before.pending[0]));
                assert(n > 0);
            }
        }
        self.start = i;
        self.scanp = i;
        assert(self@.pending =~= skip_space(before.pending));
        match found {
            Some(c) => Seen::Byte(c),
            None => {
                match self.arrived.take() {
                    Some(e) => Seen::Failed(e),
                    None => if self.ended {
                        Seen::AtEnd
                    } else {
                        Seen::NeedChunk
                    },
                }
            },
        }
    }

    /// Steps over the byte at the front.
    fn consume(&mut self)
        requires
            old(self).wf(),
            old(self)@.pending.len() > 0,
        ensures
            final(self).wf(),
            final(self)@ == old(self)@.at(old(self)@.pending.skip(1)),
    {
        let ghost before = self@;
        self.settle();
        let len: usize = octets_len(&self.chunk);
        assert(self.start < len);
        self.start = self.start + 1;
        self.scanp = self.start;
        assert(self@.pending =~= before.pending.skip(1));
    }

    /// Hands out what is pending up to `end`, without the white space around
    /// it.
    fn take_value(&mut self, end: usize) -> (r: Bytes)
        requires
            old(self).start <= end <= octets(old(self).chunk).len(),
            well_nested(old(self)@),
        ensures
            final(self).wf(),
            ({
                let n = old(self).carry@.len() + end - old(self).start;
                &&& octets(r) == trimmed(old(self)@.pending.take(n))
                &&& final(self)@ == old(self)@.at(old(self)@.pending.skip(n))
            }),
    {
        let ghost before = self@;
        let ghost n = self.carry@.len() + end - self.start;
        let value: Bytes = if self.carry.len() == 0 {
            let raw: &[u8] = slice_subrange(octets_slice(&self.chunk), self.start, end);
            let (from, to): (usize, usize) = trim_bounds(raw);
            assert(raw@ =~= before.pending.take(n));
            if keeps_chunk(to - from, octets_len(&self.chunk)) {
                assert(octets(self.chunk).subrange(self.start + from, self.start + to)
                    =~= raw@.subrange(from as int, to as int));
                octets_part(&self.chunk, self.start + from, self.start + to)
            } else {
                octets_copied(slice_subrange(raw, from, to))
            }
        } else {
            let mut all: Vec<u8> = Vec::new();
            std::mem::swap(&mut all, &mut self.carry);
            push_from(&mut all, octets_slice(&self.chunk), self.start, end);
            assert(all@ =~= before.pending.take(n));
            let (from, to): (usize, usize) = trim_bounds(all.as_slice());
            octets_copied(slice_subrange(all.as_slice(), from, to))
        };
        self.carry = Vec::new();
        self.start = end;
        self.scanp = end;
        self.reading = false;
        assert(self@.pending =~= before.pending.skip(n));
        value
    }

    /// Reads the value at the front.
    fn read_value(&mut self) -> (r: Polled<Result<Bytes, Error>>)
        requires
            old(self).wf(),
        ensures
            final(self).wf(),
            (value_said(r), final(self)@) == value_read(old(self)@),
    {
        let ghost before = self@;
        if !self.reading {
            self.scan.reset();
            self.scanp = self.start;
            self.reading = true;
        }
        let len: usize = octets_len(&self.chunk);
        let ghost pending = before.pending;
        while self.scanp < len
            invariant
                self.wf(),
                self.reading,
                len == octets(self.chunk).len(),
                before == old(self)@,
                pending == before.pending,
                self@ == (DecoderView { reading: self.scanp == len, ..before }),
            decreases len - self.scanp,
        {
            let ghost at = self.carry@.len() + self.scanp - self.start;
            let c: u8 = octets_slice(&self.chunk)[self.scanp];
            let ghost s0 = self.scan@;
            proof {
                assert(c == pending[at]);
                lemma_scanned(pending, at);
                lemma_closing(s0, c);
            }
            let code: ScanState = self.scan.step(c);
            let ghost next = self.scan@;
            match code {
                ScanState::End => {
                    let end: usize = self.scanp;
                    proof {
                        assert(well_nested(self@));
                    }
                    return Polled::Ready(Ok(self.take_value(end)));
                },
                ScanState::EndObject | ScanState::EndArray => {
                    if self.scan.step(0x20) == ScanState::End {
                        let end: usize = self.scanp + 1;
                        return Polled::Ready(Ok(self.take_value(end)));
                    }
                },
                ScanState::Error => {
                    let text: String = match self.scan.err() {
                        Some(text) => text.clone(),
                        None => String::new(),
                    };
                    self.give_up();
                    self.err = Some(Error { msg: text.clone() });
                    return Polled::Ready(Err(Error { msg: text }));
                },
                _ => {},
            }
            proof {
                assert(self.scan@ == next);
                assert(scanned(pending, at + 1) == Some(next));
            }
            self.scanp = self.scanp + 1;
        }
        let ghost at = self.carry@.len() + self.scanp - self.start;
        proof {
            assert(at == pending.len());
            lemma_scanned(pending, at);
        }
        match self.arrived.take() {
            Some(e) => {
                self.give_up();
                self.err = Some(e.clone());
                return Polled::Ready(Err(e));
            },
            None => {},
        }
        if !self.ended {
            return Polled::NeedChunk;
        }
        if self.scan.step(0x20) == ScanState::End {
            assert(pending.take(pending.len() as int) =~= pending);
            assert(pending.skip(pending.len() as int) =~= Seq::<u8>::empty());
            return Polled::Ready(Ok(self.take_value(len)));
        }
        if self.carry.len() > 0 || !all_space(octets_slice(&self.chunk), self.start) {
            proof {
                if before.carried == 0 {
                    lemma_space_only(pending);
                    let k = choose|k: int|
                        self.start <= k < octets(self.chunk).len() && !is_space(
                            #[trigger] octets(self.chunk)[k],
                        );
                    assert(pending[k - self.start] == octets(self.chunk)[k]);
                }
            }
            self.give_up();
            let e: Error = Error::new_message_error("unexpected EOF");
            self.err = Some(e.clone());
            return Polled::Ready(Err(e));
        }
        proof {
            lemma_space_only(pending);
            assert(pending =~= octets(self.chunk).skip(self.start as int));
            assert forall|k: int| 0 <= k < pending.len() implies is_space(
                #[trigger] pending[k],
            ) by {
                assert(is_space(octets(self.chunk)[self.start + k]));
            }
            assert(pending.take(pending.len() as int) =~= pending);
            assert(pending.skip(pending.len() as int) =~= Seq::<u8>::empty());
        }
        Polled::Ready(Ok(self.take_value(len)))
    }
}

impl Decoder {
    /// Steps over the separator that has to stand in front of a value.
    /// `None` where it is stepped over or none is due.
    fn token_prepare_for_decode(&mut self) -> (r: Option<Polled<Result<Bytes, Error>>>)
        requires
            old(self).wf(),
        ensures
            final(self).wf(),
            ({
                let (stop, after) = separated(old(self)@);
                &&& final(self)@ == after
                &&& r is Some <==> stop is Some
                &&& r is Some ==> value_said(r->0) == stop->0
            }),
    {
        let (sep, complaint, next): (u8, &str, TokenState) = match self.token_state {
            TokenState::ArrayComma => (
                0x2c,
                "expected comma after array element",
                TokenState::ArrayValue,
            ),
            TokenState::ObjectColon => (
                0x3a,
                "expected colon after object key",
                TokenState::ObjectValue,
            ),
            _ => {
                return None;
            },
        };
        match self.peek() {
            Seen::Byte(c) => {
                if c != sep {
                    return Some(Polled::Ready(Err(Error::new_message_error(complaint))));
                }
                self.consume();
                self.token_state = next;
                None
            },
            Seen::Failed(e) => Some(Polled::Ready(Err(e))),
            Seen::AtEnd => Some(Polled::Ready(Err(Error::new_message_error("unexpected EOF")))),
            Seen::NeedChunk => Some(Polled::NeedChunk),
        }
    }

    fn token_value_allowed(&self) -> (r: bool)
        ensures
            r == value_allowed(self@.state),
    {
        match self.token_state {
            TokenState::TopValue => true,
            TokenState::ArrayStart => true,
            TokenState::ArrayValue => true,
            TokenState::ObjectValue => true,
            _ => false,
        }
    }

    fn token_value_end(&mut self)
        requires
            old(self).wf(),
        ensures
            final(self).wf(),
            final(self)@ == (DecoderView {
                state: behind_value(old(self)@.state),
                ..old(self)@
            }),
    {
        match self.token_state {
            TokenState::ArrayStart | TokenState::ArrayValue => {
                self.token_state = TokenState::ArrayComma;
            },
            TokenState::ObjectValue => {
                self.token_state = TokenState::ObjectComma;
            },
            _ => {},
        }
    }

    /// Reads a whole value, as it was sent.
    pub fn decode(&mut self) -> (r: Polled<Result<Bytes, Error>>)
        requires
            old(self).wf(),
        ensures
            final(self).wf(),
            (value_said(r), final(self)@) == decoded(old(self)@),
    {
        proof {
            reveal(decoded);
        }
        match &self.err {
            Some(e) => {
                return Polled::Ready(Err(e.clone()));
            },
            None => {},
        }
        match self.token_prepare_for_decode() {
            Some(stop) => {
                return stop;
            },
            None => {},
        }
        if !self.token_value_allowed() {
            return Polled::Ready(Err(Error::new_message_error("not at beginning of value")));
        }
        match self.read_value() {
            Polled::Ready(Ok(value)) => {
                self.token_value_end();
                Polled::Ready(Ok(value))
            },
            Polled::Ready(Err(e)) => Polled::Ready(Err(e)),
            Polled::NeedChunk => Polled::NeedChunk,
        }
    }

    fn token_error(&self, c: u8) -> (r: Error)
        ensures
            r.msg@ == out_of_place(self@.state, c),
    {
        let context: &str = match self.token_state {
            TokenState::TopValue => " looking for beginning of value",
            TokenState::ArrayStart => " looking for beginning of value",
            TokenState::ArrayValue => " looking for beginning of value",
            TokenState::ObjectValue => " looking for beginning of value",
            TokenState::ArrayComma => " after array element",
            TokenState::ObjectKey => " looking for beginning of object key string",
            TokenState::ObjectColon => " after object key",
            TokenState::ObjectComma => " after object key:value pair",
            TokenState::ObjectStart => "",
        };
        let mut text: String = owned("invalid character ");
        text.append(Scanner::quote_char(c).as_str());
        text.append(context);
        Error { msg: text }
    }

    fn open(&mut self, c: u8, delim: char, state: TokenState) -> (r: Polled<Result<Token, Error>>)
        requires
            old(self).wf(),
            old(self)@.pending.len() > 0,
        ensures
            final(self).wf(),
            (Some(token_said(r)), final(self)@) == opened(old(self)@, c, delim, state),
    {
        if !self.token_value_allowed() {
            return Polled::Ready(Err(self.token_error(c)));
        }
        self.consume();
        self.token_stack.push(self.token_state);
        self.token_state = state;
        Polled::Ready(Ok(Token::Delim(delim)))
    }

    fn close(&mut self, c: u8, delim: char, a: TokenState, b: TokenState) -> (r: Polled<
        Result<Token, Error>,
    >)
        requires
            old(self).wf(),
            old(self)@.pending.len() > 0,
            a != TokenState::TopValue,
            b != TokenState::TopValue,
        ensures
            final(self).wf(),
            (Some(token_said(r)), final(self)@) == closed_by(old(self)@, c, delim, a, b),
    {
        if self.token_state != a && self.token_state != b {
            return Polled::Ready(Err(self.token_error(c)));
        }
        self.consume();
        let ghost stack = self.token_stack@;
        match self.token_stack.pop() {
            Some(state) => {
                self.token_state = state;
            },
            None => {},
        }
        assert(self.token_stack@ =~= stack.drop_last());
        self.token_value_end();
        Polled::Ready(Ok(Token::Delim(delim)))
    }

    fn key(&mut self) -> (r: Polled<Result<Token, Error>>)
        requires
            old(self).wf(),
            old(self)@.state == TokenState::ObjectStart || old(self)@.state
                == TokenState::ObjectKey,
        ensures
            final(self).wf(),
            (token_said(r), final(self)@) == key_read(old(self)@),
    {
        match &self.err {
            Some(e) => {
                let e: Error = e.clone();
                self.token_state = TokenState::TopValue;
                return Polled::Ready(Err(e));
            },
            None => {},
        }
        match self.read_value() {
            Polled::NeedChunk => Polled::NeedChunk,
            Polled::Ready(Err(e)) => {
                self.token_state = TokenState::TopValue;
                Polled::Ready(Err(e))
            },
            Polled::Ready(Ok(raw)) => {
                match parse_json_string(octets_slice(&raw)) {
                    Ok(key) => {
                        self.token_state = TokenState::ObjectColon;
                        Polled::Ready(Ok(Token::String(key)))
                    },
                    Err(e) => {
                        self.token_state = TokenState::TopValue;
                        Polled::Ready(Err(Error { msg: e }))
                    },
                }
            },
        }
    }

    fn token_once(&mut self) -> (r: Option<Polled<Result<Token, Error>>>)
        requires
            old(self).wf(),
        ensures
            final(self).wf(),
            ({
                let (answer, after) = token_here(old(self)@);
                &&& final(self)@ == after
                &&& r is Some <==> answer is Some
                &&& r is Some ==> token_said(r->0) == answer->0
            }),
    {
        proof {
            reveal(token_here);
        }
        let c: u8 = match self.peek() {
            Seen::Byte(c) => c,
            Seen::Failed(e) => {
                return Some(Polled::Ready(Err(e)));
            },
            Seen::AtEnd => {
                return Some(Polled::Ready(Err(Error::new_message_error("unexpected EOF"))));
            },
            Seen::NeedChunk => {
                return Some(Polled::NeedChunk);
            },
        };
        if c == 0x5b {
            return Some(self.open(c, '[', TokenState::ArrayStart));
        }
        if c == 0x5d {
            return Some(
                self.close(c, ']', TokenState::ArrayStart, TokenState::ArrayComma),
            );
        }
        if c == 0x7b {
            return Some(self.open(c, '{', TokenState::ObjectStart));
        }
        if c == 0x7d {
            return Some(
                self.close(c, '}', TokenState::ObjectStart, TokenState::ObjectComma),
            );
        }
        if c == 0x3a {
            if self.token_state != TokenState::ObjectColon {
                return Some(Polled::Ready(Err(self.token_error(c))));
            }
            self.consume();
            self.token_state = TokenState::ObjectValue;
            return None;
        }
        if c == 0x2c {
            if self.token_state == TokenState::ArrayComma {
                self.consume();
                self.token_state = TokenState::ArrayValue;
                return None;
            }
            if self.token_state == TokenState::ObjectComma {
                self.consume();
                self.token_state = TokenState::ObjectKey;
                return None;
            }
            return Some(Polled::Ready(Err(self.token_error(c))));
        }
        if c == 0x22 && (self.token_state == TokenState::ObjectStart || self.token_state
            == TokenState::ObjectKey) {
            return Some(self.key());
        }
        if !self.token_value_allowed() {
            return Some(Polled::Ready(Err(self.token_error(c))));
        }
        match self.decode() {
            Polled::Ready(Ok(value)) => Some(Polled::Ready(Ok(Token::Value(value)))),
            Polled::Ready(Err(e)) => Some(Polled::Ready(Err(e))),
            Polled::NeedChunk => Some(Polled::NeedChunk),
        }
    }

    /// Takes the next token: a bracket or brace, an object's key, or a value
    /// that is neither object nor array.
    pub fn token(&mut self) -> (r: Polled<Result<Token, Error>>)
        requires
            old(self).wf(),
        ensures
            final(self).wf(),
            (token_said(r), final(self)@) == token_taken(old(self)@),
    {
        proof {
            reveal(token_taken);
        }
        proof {
            lemma_one_separator(self@);
        }
        match self.token_once() {
            Some(answer) => answer,
            None => {
                match self.token_once() {
                    Some(answer) => answer,
                    None => Polled::NeedChunk,
                }
            },
        }
    }

    /// Whether another element follows in the array or object at hand.
    pub fn more(&mut self) -> (r: Polled<bool>)
        requires
            old(self).wf(),
        ensures
            final(self).wf(),
            (r, final(self)@) == more_to_come(old(self)@),
    {
        proof {
            reveal(more_to_come);
        }
        match self.peek() {
            Seen::Byte(c) => Polled::Ready(c != 0x5d && c != 0x7d),
            Seen::Failed(_) => Polled::Ready(false),
            Seen::AtEnd => Polled::Ready(false),
            Seen::NeedChunk => Polled::NeedChunk,
        }
    }
}

proof fn lemma_space_only(s: Seq<u8>)
    ensures
        skip_space(s).len() == 0 <==> forall|i: int| 0 <= i < s.len() ==> is_space(#[trigger] s[i]),
    decreases s.len(),
{
    if s.len() > 0 && is_space(s[0]) {
        let t = s.skip(1);
        lemma_space_only(t);
        if forall|i: int| 0 <= i < t.len() ==> is_space(#[trigger] t[i]) {
            assert forall|i: int| 0 <= i < s.len() implies is_space(#[trigger] s[i]) by {
                if i > 0 {
                    assert(is_space(t[i - 1]));
                }
            }
        }
        if forall|i: int| 0 <= i < s.len() ==> is_space(#[trigger] s[i]) {
            assert forall|i: int| 0 <= i < t.len() implies is_space(#[trigger] t[i]) by {
                assert(is_space(s[i + 1]));
            }
        }
    }
}

fn all_space(bytes: &[u8], from: usize) -> (r: bool)
    requires
        from <= bytes@.len(),
    ensures
        r == forall|k: int| from <= k < bytes@.len() ==> is_space(#[trigger] bytes@[k]),
{
    let mut i: usize = from;
    while i < bytes.len()
        invariant
            from <= i <= bytes@.len(),
            forall|k: int| from <= k < i ==> is_space(#[trigger] bytes@[k]),
        decreases bytes.len() - i,
    {
        if !space(bytes[i]) {
            assert(!is_space(bytes@[i as int]));
            return false;
        }
        i += 1;
    }
    true
}

proof fn lemma_skip_space_extends(s: Seq<u8>, more: Seq<u8>)
    ensures
        skip_space(s).len() > 0 ==> skip_space(s + more) == skip_space(s) + more,
        skip_space(s).len() == 0 ==> skip_space(s + more) == skip_space(more),
        skip_space(s).len() <= s.len(),
    decreases s.len(),
{
    if s.len() > 0 && is_space(s[0]) {
        lemma_skip_space_extends(s.skip(1), more);
        assert((s + more).skip(1) =~= s.skip(1) + more);
    } else if s.len() == 0 {
        assert(s + more =~= more);
    }
}

proof fn lemma_extent_extends(s: ScanView, bytes: Seq<u8>, more: Seq<u8>, at: int)
    requires
        0 <= at <= bytes.len(),
    ensures
        !(extent_from(s, bytes, at) is Open) ==> extent_from(s, bytes + more, at) == extent_from(
            s,
            bytes,
            at,
        ),
        extent_from(s, bytes, at) matches Extent::Whole(n) ==> at <= n <= bytes.len(),
    decreases bytes.len() - at,
{
    if at < bytes.len() {
        assert((bytes + more)[at] == bytes[at]);
        let (next, code) = stepped(s, bytes[at]);
        if !is_over(next, code) {
            lemma_extent_extends(next, bytes, more, at + 1);
        }
    }
}

/// Everything but whether a value is being read.
pub open spec fn alike(a: DecoderView, b: DecoderView) -> bool {
    DecoderView { reading: false, carried: 0, ..a } == DecoderView {
        reading: false,
        carried: 0,
        ..b
    }
}

/// An answer that is an error. What is left behind one may depend on the
/// chunks: of a value that failed, what came in earlier ones is given up.
pub open spec fn erred<T>(answer: Polled<Result<T, Seq<char>>>) -> bool {
    answer matches Polled::Ready(Err(_))
}

/// The response goes on: neither its end nor a failure was seen.
pub open spec fn goes_on(d: DecoderView) -> bool {
    !d.ended && d.arrived is None
}

proof fn lemma_peeked_extends(d: DecoderView, more: Seq<u8>)
    requires
        goes_on(d),
    ensures
        ({
            let (seen, after) = peeked(d);
            let (seen2, after2) = peeked(fed(d, more));
            &&& goes_on(after)
            &&& after.err == d.err && after.state == d.state && after.stack == d.stack
            &&& seen is Byte ==> seen2 == seen && alike(after2, fed(after, more))
            &&& !(seen is Byte) ==> seen is NeedChunk && after.pending.len() == 0
            &&& seen is NeedChunk ==> alike(
                peeked(fed(after, more)).1,
                peeked(fed(d, more)).1,
            ) && peeked(fed(after, more)).0 == seen2
        }),
{
    lemma_skip_space_extends(d.pending, more);
    let (seen, after) = peeked(d);
    if seen is NeedChunk {
        assert(after.pending + more =~= more);
        lemma_skip_space_extends(after.pending, more);
    }
}

proof fn lemma_value_read_extends(d: DecoderView, more: Seq<u8>)
    requires
        goes_on(d),
    ensures
        ({
            let (answer, after) = value_read(d);
            let (answer2, after2) = value_read(fed(d, more));
            &&& goes_on(after)
            &&& after.state == d.state && after.stack == d.stack
            &&& answer is Ready ==> answer2 == answer && !after.reading
            &&& answer is Ready && !erred(answer) ==> after2 == fed(after, more)
            &&& answer is NeedChunk ==> alike(after, d)
        }),
{
    lemma_extent_extends(at_start(), d.pending, more, 0);
    let p = d.pending;
    match extent(p) {
        Extent::Whole(n) => {
            assert((p + more).take(n) =~= p.take(n));
            assert((p + more).skip(n) =~= p.skip(n) + more);
        },
        _ => {},
    }
}

/// Reading a value does not care whether one is being read already, as long as
/// the response goes on.
proof fn lemma_value_read_alike(a: DecoderView, b: DecoderView)
    requires
        goes_on(a),
        alike(a, b),
    ensures
        value_read(a).0 == value_read(b).0,
        !erred(value_read(a).0) ==> alike(value_read(a).1, value_read(b).1),
{
}

proof fn lemma_peeked_alike(a: DecoderView, b: DecoderView)
    requires
        alike(a, b),
    ensures
        peeked(a).0 == peeked(b).0,
        alike(peeked(a).1, peeked(b).1),
{
}

proof fn lemma_decoded_alike(a: DecoderView, b: DecoderView)
    requires
        goes_on(a),
        alike(a, b),
    ensures
        decoded(a).0 == decoded(b).0,
        !erred(decoded(a).0) ==> alike(decoded(a).1, decoded(b).1),
{
    reveal(decoded);
    if a.err is None {
        lemma_peeked_alike(a, b);
        let (stop, a1) = separated(a);
        let (stop2, b1) = separated(b);
        assert(stop == stop2 && alike(a1, b1));
        if stop is None {
            assert(goes_on(a1));
            lemma_value_read_alike(a1, b1);
        }
    }
}

/// A value that was read from what has arrived is the value, whatever arrives
/// later; and a read that had to wait, asked again once more has arrived, says
/// what it would have said had all of it been there from the start. What is
/// left pending is the same, too, unless the read failed. So it makes no
/// difference where a response is cut into chunks.
pub proof fn a_value_does_not_depend_on_the_chunks(d: DecoderView, more: Seq<u8>)
    requires
        goes_on(d),
    ensures
        decoded(d).0 is Ready ==> decoded(fed(d, more)).0 == decoded(d).0,
        decoded(d).0 is Ready && !erred(decoded(d).0) ==> alike(
            decoded(fed(d, more)).1,
            fed(decoded(d).1, more),
        ),
        decoded(d).0 is NeedChunk ==> decoded(fed(decoded(d).1, more)).0 == decoded(
            fed(d, more),
        ).0,
        decoded(d).0 is NeedChunk && !erred(decoded(fed(d, more)).0) ==> alike(
            decoded(fed(decoded(d).1, more)).1,
            decoded(fed(d, more)).1,
        ),
{
    reveal(decoded);
    let f = fed(d, more);
    if d.err is None {
        lemma_peeked_extends(d, more);
        let (stop, d1) = separated(d);
        let (stop2, f1) = separated(f);
        if stop is None {
            if d.state == TokenState::ArrayComma || d.state == TokenState::ObjectColon {
                let rest = peeked(d).1.pending;
                assert((rest + more).skip(1) =~= rest.skip(1) + more);
            }
            assert(stop2 is None);
            assert(alike(f1, fed(d1, more)));
            assert(goes_on(d1));
            lemma_value_read_extends(d1, more);
            lemma_value_read_alike(f1, fed(d1, more));
            let (answer, d2) = value_read(d1);
            if value_allowed(d1.state) && answer is NeedChunk {
                assert(decoded(d).1 == d2);
                assert(alike(fed(d2, more), fed(d1, more)));
                assert(separated(fed(d2, more)) == (
                    None::<Polled<Result<Seq<u8>, Seq<char>>>>,
                    fed(d2, more),
                ));
                lemma_value_read_alike(fed(d2, more), f1);
            }
        } else if stop->0 is NeedChunk {
            let e = fed(d1, more);
            assert(d1.state == d.state);
            assert(peeked(e).0 == peeked(f).0 && alike(peeked(e).1, peeked(f).1));
            let (stop3, e1) = separated(e);
            assert(stop3 == stop2 && alike(e1, f1));
            if stop3 is None {
                lemma_value_read_alike(e1, f1);
            }
        }
    }
}

proof fn lemma_key_alike(a: DecoderView, b: DecoderView)
    requires
        goes_on(a),
        alike(a, b),
    ensures
        key_read(a).0 == key_read(b).0,
        !erred(key_read(a).0) ==> alike(key_read(a).1, key_read(b).1),
{
    lemma_value_read_alike(a, b);
}

proof fn lemma_token_here_alike(a: DecoderView, b: DecoderView)
    requires
        goes_on(a),
        alike(a, b),
    ensures
        token_here(a).0 == token_here(b).0,
        !(token_here(a).0 is Some && erred(token_here(a).0->0)) ==> alike(
            token_here(a).1,
            token_here(b).1,
        ),
        token_here(a).0 is None ==> goes_on(token_here(a).1),
{
    reveal(token_here);
    lemma_peeked_alike(a, b);
    let (seen, a1) = peeked(a);
    let (seen2, b1) = peeked(b);
    if seen is Byte {
        lemma_key_alike(a1, b1);
        lemma_decoded_alike(a1, b1);
    }
}

proof fn lemma_token_here_extends(d: DecoderView, more: Seq<u8>)
    requires
        goes_on(d),
    ensures
        ({
            let (answer, after) = token_here(d);
            let (answer2, after2) = token_here(fed(d, more));
            &&& answer is None ==> answer2 is None && goes_on(after) && alike(
                after2,
                fed(after, more),
            )
            &&& (answer is Some && answer->0 is Ready) ==> answer2 == answer
            &&& (answer is Some && answer->0 is Ready && !erred(answer->0)) ==> alike(
                after2,
                fed(after, more),
            )
            &&& (answer is Some && answer->0 is NeedChunk) ==> goes_on(after) && token_here(
                fed(after, more),
            ).0 == answer2
            &&& (answer is Some && answer->0 is NeedChunk && !(answer2 is Some && erred(
                answer2->0,
            ))) ==> alike(token_here(fed(after, more)).1, after2)
        }),
{
    reveal(decoded);
    reveal(token_here);
    let f = fed(d, more);
    lemma_peeked_extends(d, more);
    let (seen, d1) = peeked(d);
    let (seen2, f1) = peeked(f);
    if seen is Byte {
        let c = seen->Byte_0;
        assert((d1.pending + more).skip(1) =~= d1.pending.skip(1) + more);
        if c == 0x22 && (d1.state == TokenState::ObjectStart || d1.state
            == TokenState::ObjectKey) {
            if d1.err is None {
                lemma_value_read_extends(d1, more);
                lemma_value_read_alike(f1, fed(d1, more));
                let (answer, d2) = value_read(d1);
                if answer is NeedChunk {
                    let e = fed(d2, more);
                    assert(alike(e, f1));
                    lemma_skip_space_extends(d.pending, more);
                    lemma_front(d);
                    lemma_peek_again(e, c);
                    lemma_key_alike(e, f1);
                }
            }
        } else if value_allowed(d1.state) && c != 0x5b && c != 0x5d && c != 0x7b && c != 0x7d && c
            != 0x3a && c != 0x2c {
            a_value_does_not_depend_on_the_chunks(d1, more);
            lemma_decoded_alike(f1, fed(d1, more));
            let (answer, d2) = decoded(d1);
            if answer is NeedChunk {
                lemma_value_read_extends(d1, more);
                let e = fed(d2, more);
                assert(alike(d2, d1));
                assert(alike(e, f1));
                lemma_front(d);
                lemma_peek_again(e, c);
                lemma_decoded_alike(e, f1);
            }
        }
    } else {
        let e = fed(d1, more);
        assert(peeked(e).0 == seen2 && alike(peeked(e).1, f1));
        let e1 = peeked(e).1;
        if seen2 is Byte {
            lemma_key_alike(e1, f1);
            lemma_decoded_alike(e1, f1);
        }
    }
}

/// Behind a look there is no white space in front.
proof fn lemma_front(d: DecoderView)
    ensures
        peeked(d).0 matches Peeked::Byte(c) ==> peeked(d).1.pending.len() > 0
            && peeked(d).1.pending[0] == c && !is_space(c),
{
    lemma_front_byte(d.pending);
}

proof fn lemma_front_byte(s: Seq<u8>)
    ensures
        skip_space(s).len() > 0 ==> !is_space(skip_space(s)[0]),
    decreases s.len(),
{
    if s.len() > 0 && is_space(s[0]) {
        lemma_front_byte(s.skip(1));
    }
}

proof fn lemma_peek_again(d: DecoderView, c: u8)
    requires
        d.pending.len() > 0,
        d.pending[0] == c,
        !is_space(c),
    ensures
        peeked(d) == (Peeked::Byte(c), d),
{
}

/// The same of tokens: one taken from what has arrived is the token, and one
/// that had to be waited for is what it would have been had all of it been
/// there from the start.
pub proof fn a_token_does_not_depend_on_the_chunks(d: DecoderView, more: Seq<u8>)
    requires
        goes_on(d),
    ensures
        token_taken(d).0 is Ready ==> token_taken(fed(d, more)).0 == token_taken(d).0,
        token_taken(d).0 is Ready && !erred(token_taken(d).0) ==> alike(
            token_taken(fed(d, more)).1,
            fed(token_taken(d).1, more),
        ),
        token_taken(d).0 is NeedChunk ==> token_taken(fed(token_taken(d).1, more)).0
            == token_taken(fed(d, more)).0,
        token_taken(d).0 is NeedChunk && !erred(token_taken(fed(d, more)).0) ==> alike(
            token_taken(fed(token_taken(d).1, more)).1,
            token_taken(fed(d, more)).1,
        ),
{
    reveal(token_taken);
    let f = fed(d, more);
    lemma_token_here_extends(d, more);
    lemma_token_here_alike(f, f);
    lemma_one_separator(d);
    lemma_one_separator(f);
    let (first, d1) = token_here(d);
    let (first2, f1) = token_here(f);
    if first is None {
        lemma_token_here_extends(d1, more);
        lemma_token_here_alike(f1, fed(d1, more));
    } else if first->0 is NeedChunk {
        let (again, e1) = token_here(fed(d1, more));
        if again is None {
            lemma_token_here_alike(f1, e1);
        }
    }
}

/// Two separators never stand behind each other.
proof fn lemma_one_separator(d: DecoderView)
    ensures
        token_here(d).0 is None ==> token_here(token_here(d).1).0 is Some,
{
    reveal(token_here);
}

proof fn lemma_whole_is_some(bytes: Seq<u8>)
    ensures
        extent(bytes) matches Extent::Whole(n) ==> 1 <= n <= bytes.len(),
{
    if bytes.len() > 0 {
        assert(stepped(at_start(), bytes[0]).1 != ScanState::End) by {
            reveal(stepped);
        }
        lemma_extent_extends(at_start(), bytes, Seq::empty(), 0);
        let (next, code) = stepped(at_start(), bytes[0]);
        if !is_over(next, code) {
            lemma_extent_extends(next, bytes, Seq::empty(), 1);
        }
    }
}

proof fn lemma_value_read_shrinks(d: DecoderView)
    ensures
        value_read(d).1.pending.len() <= d.pending.len(),
        d.pending.len() > 0 && (value_read(d).0 matches Polled::Ready(Ok(_))) ==> value_read(
            d,
        ).1.pending.len() < d.pending.len(),
{
    lemma_whole_is_some(d.pending);
}

proof fn lemma_peeked_shrinks(d: DecoderView)
    ensures
        peeked(d).1.pending.len() <= d.pending.len(),
        peeked(d).0 is Byte ==> peeked(d).1.pending.len() > 0,
{
    lemma_skip_space_extends(d.pending, Seq::empty());
}

/// Reading a value never adds to what is pending.
pub proof fn decoding_consumes(d: DecoderView)
    ensures
        decoded(d).1.pending.len() <= d.pending.len(),
        d.pending.len() > 0 && value_allowed(d.state) && (decoded(d).0 matches Polled::Ready(
            Ok(_),
        )) ==> decoded(d).1.pending.len() < d.pending.len(),
{
    reveal(decoded);
    lemma_peeked_shrinks(d);
    lemma_value_read_shrinks(separated(d).1);
}

/// Looking ahead never adds to what is pending.
pub proof fn looking_ahead_consumes_nothing_but_space(d: DecoderView)
    ensures
        more_to_come(d).1.pending == skip_space(d.pending),
        more_to_come(d).1.pending.len() <= d.pending.len(),
{
    reveal(more_to_come);
    lemma_peeked_shrinks(d);
}

proof fn lemma_token_here_shrinks(d: DecoderView)
    ensures
        token_here(d).1.pending.len() <= d.pending.len(),
        token_here(d).0 is None ==> token_here(d).1.pending.len() < d.pending.len(),
        (token_here(d).0 matches Some(Polled::Ready(Ok(_)))) ==> token_here(d).1.pending.len()
            < d.pending.len(),
{
    reveal(decoded);
    reveal(token_here);
    lemma_peeked_shrinks(d);
    let (seen, d1) = peeked(d);
    if seen is Byte {
        lemma_value_read_shrinks(d1);
        decoding_consumes(d1);
    }
}

/// A token takes up at least one byte of what is pending.
pub proof fn a_token_consumes(d: DecoderView)
    ensures
        token_taken(d).1.pending.len() <= d.pending.len(),
        (token_taken(d).0 matches Polled::Ready(Ok(_))) ==> token_taken(d).1.pending.len()
            < d.pending.len(),
{
    reveal(token_taken);
    lemma_token_here_shrinks(d);
    lemma_token_here_shrinks(token_here(d).1);
    lemma_one_separator(d);
}

/// The same of looking ahead.
pub proof fn looking_ahead_does_not_depend_on_the_chunks(d: DecoderView, more: Seq<u8>)
    requires
        goes_on(d),
    ensures
        more_to_come(d).0 is Ready ==> more_to_come(fed(d, more)).0 == more_to_come(d).0 && alike(
            more_to_come(fed(d, more)).1,
            fed(more_to_come(d).1, more),
        ),
        more_to_come(d).0 is NeedChunk ==> more_to_come(fed(more_to_come(d).1, more)).0
            == more_to_come(fed(d, more)).0 && alike(
            more_to_come(fed(more_to_come(d).1, more)).1,
            more_to_come(fed(d, more)).1,
        ),
{
    reveal(more_to_come);
    lemma_peeked_extends(d, more);
}

/// Answers do not depend on whether a value is being read already, as long as
/// the response goes on.
pub proof fn answers_do_not_depend_on_reading(a: DecoderView, b: DecoderView)
    requires
        goes_on(a),
        alike(a, b),
    ensures
        token_taken(a).0 == token_taken(b).0,
        !erred(token_taken(a).0) ==> alike(token_taken(a).1, token_taken(b).1),
        decoded(a).0 == decoded(b).0,
        !erred(decoded(a).0) ==> alike(decoded(a).1, decoded(b).1),
        more_to_come(a).0 == more_to_come(b).0,
        alike(more_to_come(a).1, more_to_come(b).1),
{
    reveal(token_taken);
    reveal(more_to_come);
    lemma_decoded_alike(a, b);
    lemma_peeked_alike(a, b);
    lemma_token_here_alike(a, b);
    if token_here(a).0 is None {
        lemma_token_here_alike(token_here(a).1, token_here(b).1);
    }
}

/// As long as the response goes on, taking something from what has arrived
/// leaves it going on.
pub proof fn taking_leaves_the_transport_alone(d: DecoderView)
    requires
        goes_on(d),
    ensures
        goes_on(token_taken(d).1),
        goes_on(decoded(d).1),
        goes_on(more_to_come(d).1),
{
    reveal(token_taken);
    reveal(decoded);
    reveal(more_to_come);
    lemma_token_here_goes_on(d);
    if token_here(d).0 is None {
        lemma_token_here_goes_on(token_here(d).1);
    }
}

proof fn lemma_token_here_goes_on(d: DecoderView)
    requires
        goes_on(d),
    ensures
        goes_on(token_here(d).1),
{
    reveal(decoded);
    reveal(token_here);
}

} // verus!
