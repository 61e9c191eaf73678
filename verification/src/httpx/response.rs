//! What a whole response reads as: an object one of whose attributes is an
//! array of rows.
use vstd::prelude::*;
use crate::httpx::decoder::{
    behind_value, decoded, drop_space, extent, extent_from, goes_on, is_over, is_space, json_string,
    key_read, more_to_come, peeked, separated, skip_space, token_here, token_taken, trimmed,
    value_allowed, value_read, DecoderView, Extent, Peeked, Polled, TokenState, TokenView,
};
use crate::httpx::json_object::{no_members, object_text, parsed_value};
use crate::httpx::raw_json_row_streamer::{
    a_response_does_not_depend_on_the_chunks, begin_once, begun, items_read, joined,
    lemma_begun_alike, lemma_begun_keeps_going, lemma_begun_settles, next_once, nexted,
    prelude_read, response_read, stream_fed, streams_alike,
    the_prelude_does_not_depend_on_the_chunks, Outcome, PlaceView, RowStreamState,
    StreamerView,
};
use crate::httpx::scanner::{at_start, is_json_space, stepped, ScanState, ScanView};

verus! {

/// White space alone, or nothing.
pub open spec fn blank(s: Seq<u8>) -> bool {
    forall|i: int| 0 <= i < s.len() ==> is_json_space(#[trigger] s[i])
}

/// A byte that may stand behind a value: white space or one of `,:]}`.
pub open spec fn may_follow(c: u8) -> bool {
    is_json_space(c) || c == 0x2c || c == 0x3a || c == 0x5d || c == 0x7d
}

/// A JSON value and nothing around it: an object, array or string up to its
/// closing byte, or a literal that may end where it does.
pub open spec fn is_json_value(v: Seq<u8>) -> bool {
    &&& v.len() > 0
    &&& !is_space(v[0])
    &&& !is_space(v.last())
    &&& match extent(v) {
        Extent::Whole(n) => n == v.len(),
        Extent::Open(s) => stepped(s, 0x20).1 == ScanState::End,
        Extent::Refused(_) => false,
    }
}

/// A decoder to which these bytes have arrived and none of them was looked at.
pub open spec fn ready(pending: Seq<u8>, state: TokenState, stack: Seq<TokenState>) -> DecoderView {
    DecoderView {
        pending,
        ended: false,
        arrived: None,
        err: None,
        state,
        stack,
        reading: false,
        carried: 0,
    }
}

spec fn moved(e: Extent, by: int) -> Extent {
    match e {
        Extent::Whole(n) => Extent::Whole(n + by),
        other => other,
    }
}

proof fn lemma_moved(s: ScanView, front: Seq<u8>, bytes: Seq<u8>, at: int)
    requires
        0 <= at <= bytes.len(),
    ensures
        extent_from(s, front + bytes, front.len() + at) == moved(
            extent_from(s, bytes, at),
            front.len() as int,
        ),
    decreases bytes.len() - at,
{
    if at < bytes.len() {
        assert((front + bytes)[front.len() + at] == bytes[at]);
        let (next, code) = stepped(s, bytes[at]);
        if !is_over(next, code) {
            lemma_moved(next, front, bytes, at + 1);
        }
    }
}

proof fn lemma_over_blank(w: Seq<u8>, bytes: Seq<u8>, at: int)
    requires
        blank(w),
        0 <= at <= w.len(),
    ensures
        extent_from(at_start(), w + bytes, at) == extent_from(
            at_start(),
            w + bytes,
            w.len() as int,
        ),
    decreases w.len() - at,
{
    if at < w.len() {
        assert((w + bytes)[at] == w[at]);
        assert(stepped(at_start(), w[at]) == (at_start(), ScanState::SkipSpace)) by {
            reveal(stepped);
        }
        lemma_over_blank(w, bytes, at + 1);
    }
}

proof fn lemma_goes_on_behind(s: ScanView, v: Seq<u8>, rest: Seq<u8>, at: int)
    requires
        0 <= at <= v.len(),
    ensures
        extent_from(s, v, at) matches Extent::Open(then) ==> extent_from(s, v + rest, at)
            == extent_from(then, v + rest, v.len() as int),
        !(extent_from(s, v, at) is Open) ==> extent_from(s, v + rest, at) == extent_from(s, v, at),
    decreases v.len() - at,
{
    if at < v.len() {
        assert((v + rest)[at] == v[at]);
        let (next, code) = stepped(s, v[at]);
        if !is_over(next, code) {
            lemma_goes_on_behind(next, v, rest, at + 1);
        }
    }
}

/// Where a literal may end in front of a space, it may end in front of
/// whatever may follow a value.
proof fn lemma_ends_there(s: ScanView, c: u8)
    requires
        stepped(s, 0x20).1 == ScanState::End,
        may_follow(c),
    ensures
        stepped(s, c).1 == ScanState::End,
{
    reveal(stepped);
}

proof fn lemma_blank_skipped(w: Seq<u8>, bytes: Seq<u8>)
    requires
        blank(w),
        bytes.len() > 0,
        !is_space(bytes[0]),
    ensures
        skip_space(w + bytes) == bytes,
    decreases w.len(),
{
    if w.len() > 0 {
        assert(is_json_space(w[0]));
        assert((w + bytes)[0] == w[0]);
        assert((w + bytes).skip(1) =~= w.skip(1) + bytes);
        assert forall|i: int| 0 <= i < w.skip(1).len() implies is_json_space(
            #[trigger] w.skip(1)[i],
        ) by {
            assert(is_json_space(w[i + 1]));
        }
        lemma_blank_skipped(w.skip(1), bytes);
    } else {
        assert(w + bytes =~= bytes);
    }
}

/// A value in its place is read whole, and nothing else is.
proof fn lemma_value_in_place(w: Seq<u8>, v: Seq<u8>, rest: Seq<u8>)
    requires
        blank(w),
        is_json_value(v),
        rest.len() > 0,
        may_follow(rest[0]),
    ensures
        ({
            let bytes = w + (v + rest);
            let n = w.len() + v.len();
            &&& extent(bytes) == Extent::Whole(n as int)
            &&& trimmed(bytes.take(n as int)) == v
            &&& bytes.skip(n as int) == rest
        }),
{
    let bytes = w + (v + rest);
    lemma_over_blank(w, v + rest, 0);
    lemma_moved(at_start(), w, v + rest, 0);
    lemma_goes_on_behind(at_start(), v, rest, 0);
    match extent(v) {
        Extent::Open(s) => {
            lemma_ends_there(s, rest[0]);
            assert((v + rest)[v.len() as int] == rest[0]);
            assert(extent_from(s, v + rest, v.len() as int) == Extent::Whole(v.len() as int));
        },
        _ => {},
    }
    assert(bytes.take((w.len() + v.len()) as int) =~= w + v);
    assert(bytes.skip((w.len() + v.len()) as int) =~= rest);
    lemma_blank_skipped(w, v);
    assert(drop_space(v) == v);
}

/// A value does not begin with what may follow one.
proof fn lemma_value_begins(v: Seq<u8>)
    requires
        is_json_value(v),
    ensures
        !may_follow(v[0]),
{
    reveal(stepped);
    reveal_with_fuel(extent_from, 2);
}

proof fn lemma_peek(w: Seq<u8>, bytes: Seq<u8>, state: TokenState, stack: Seq<TokenState>)
    requires
        blank(w),
        bytes.len() > 0,
        !is_space(bytes[0]),
    ensures
        peeked(ready(w + bytes, state, stack)) == (
            Peeked::Byte(bytes[0]),
            ready(bytes, state, stack),
        ),
        more_to_come(ready(w + bytes, state, stack)) == (
            Polled::Ready(bytes[0] != 0x5d && bytes[0] != 0x7d),
            ready(bytes, state, stack),
        ),
{
    reveal(more_to_come);
    lemma_blank_skipped(w, bytes);
}

/// Reading a value where one is due.
proof fn lemma_decode(
    w: Seq<u8>,
    v: Seq<u8>,
    rest: Seq<u8>,
    state: TokenState,
    stack: Seq<TokenState>,
)
    requires
        blank(w),
        is_json_value(v),
        rest.len() > 0,
        may_follow(rest[0]),
    ensures
        value_read(ready(w + (v + rest), state, stack)) == (
            Polled::Ready(Ok::<Seq<u8>, Seq<char>>(v)),
            ready(rest, state, stack),
        ),
        value_allowed(state) ==> decoded(ready(w + (v + rest), state, stack)) == (
            Polled::Ready(Ok::<Seq<u8>, Seq<char>>(v)),
            ready(rest, behind_value(state), stack),
        ),
{
    reveal(decoded);
    lemma_value_in_place(w, v, rest);
}

/// Reading a value behind its comma or colon.
proof fn lemma_decode_behind(
    sep: Seq<u8>,
    w: Seq<u8>,
    v: Seq<u8>,
    rest: Seq<u8>,
    state: TokenState,
    stack: Seq<TokenState>,
)
    requires
        blank(sep),
        blank(w),
        is_json_value(v),
        rest.len() > 0,
        may_follow(rest[0]),
        state == TokenState::ArrayComma || state == TokenState::ObjectColon,
    ensures
        ({
            let c: u8 = if state == TokenState::ArrayComma {
                0x2c
            } else {
                0x3a
            };
            let then = if state == TokenState::ArrayComma {
                TokenState::ArrayComma
            } else {
                TokenState::ObjectComma
            };
            decoded(ready(sep + (seq![c] + (w + (v + rest))), state, stack)) == (
                Polled::Ready(Ok::<Seq<u8>, Seq<char>>(v)),
                ready(rest, then, stack),
            )
        }),
{
    reveal(decoded);
    let c: u8 = if state == TokenState::ArrayComma {
        0x2c
    } else {
        0x3a
    };
    let inner = seq![c] + (w + (v + rest));
    lemma_peek(sep, inner, state, stack);
    assert(inner.skip(1) =~= w + (v + rest));
    let due = if state == TokenState::ArrayComma {
        TokenState::ArrayValue
    } else {
        TokenState::ObjectValue
    };
    let d = ready(sep + inner, state, stack);
    assert(separated(d) == (
        None::<Polled<Result<Seq<u8>, Seq<char>>>>,
        ready(w + (v + rest), due, stack),
    ));
    lemma_decode(w, v, rest, due, stack);
}

/// Taking an object's key, the comma in front of it included.
proof fn lemma_key(
    w: Seq<u8>,
    key: Seq<u8>,
    name: Seq<char>,
    rest: Seq<u8>,
    state: TokenState,
    stack: Seq<TokenState>,
)
    requires
        blank(w),
        is_json_value(key),
        key[0] == 0x22,
        json_string(key) == Ok::<Seq<char>, Seq<char>>(name),
        rest.len() > 0,
        may_follow(rest[0]),
        state == TokenState::ObjectStart || state == TokenState::ObjectKey,
    ensures
        token_here(ready(w + (key + rest), state, stack)) == (
            Some(Polled::Ready(Ok::<TokenView, Seq<char>>(TokenView::Key(name)))),
            ready(rest, TokenState::ObjectColon, stack),
        ),
        token_taken(ready(w + (key + rest), state, stack)) == (
            Polled::Ready(Ok::<TokenView, Seq<char>>(TokenView::Key(name))),
            ready(rest, TokenState::ObjectColon, stack),
        ),
{
    reveal(token_here);
    reveal(token_taken);
    lemma_peek(w, key + rest, state, stack);
    let none = Seq::<u8>::empty();
    assert(none + (key + rest) =~= key + rest);
    lemma_decode(none, key, rest, state, stack);
    assert(key_read(ready(key + rest, state, stack)) == (
        Polled::Ready(Ok::<TokenView, Seq<char>>(TokenView::Key(name))),
        ready(rest, TokenState::ObjectColon, stack),
    ));
}

proof fn lemma_key_behind_comma(
    sep: Seq<u8>,
    w: Seq<u8>,
    key: Seq<u8>,
    name: Seq<char>,
    rest: Seq<u8>,
    stack: Seq<TokenState>,
)
    requires
        blank(sep),
        blank(w),
        is_json_value(key),
        key[0] == 0x22,
        json_string(key) == Ok::<Seq<char>, Seq<char>>(name),
        rest.len() > 0,
        may_follow(rest[0]),
    ensures
        token_taken(
            ready(sep + (seq![0x2cu8] + (w + (key + rest))), TokenState::ObjectComma, stack),
        ) == (
            Polled::Ready(Ok::<TokenView, Seq<char>>(TokenView::Key(name))),
            ready(rest, TokenState::ObjectColon, stack),
        ),
{
    let inner = seq![0x2cu8] + (w + (key + rest));
    lemma_peek(sep, inner, TokenState::ObjectComma, stack);
    assert(inner.skip(1) =~= w + (key + rest));
    assert(token_here(ready(sep + inner, TokenState::ObjectComma, stack)) == (
        None::<Polled<Result<TokenView, Seq<char>>>>,
        ready(w + (key + rest), TokenState::ObjectKey, stack),
    )) by {
        reveal(token_here);
    }
    lemma_key(w, key, name, rest, TokenState::ObjectKey, stack);
    reveal(token_taken);
}

/// Taking the brace that opens an object, the colon in front of a bracket and
/// the bracket that opens an array.
proof fn lemma_opening(w: Seq<u8>, rest: Seq<u8>)
    requires
        blank(w),
    ensures
        token_taken(ready(w + (seq![0x7bu8] + rest), TokenState::TopValue, Seq::empty())) == (
            Polled::Ready(Ok::<TokenView, Seq<char>>(TokenView::Delim('{'))),
            ready(rest, TokenState::ObjectStart, seq![TokenState::TopValue]),
        ),
{
    let inner = seq![0x7bu8] + rest;
    lemma_peek(w, inner, TokenState::TopValue, Seq::empty());
    assert(inner.skip(1) =~= rest);
    assert(Seq::<TokenState>::empty().push(TokenState::TopValue) =~= seq![TokenState::TopValue]);
    reveal(token_here);
    reveal(token_taken);
}

proof fn lemma_bracket(sep: Seq<u8>, w: Seq<u8>, rest: Seq<u8>, stack: Seq<TokenState>)
    requires
        blank(sep),
        blank(w),
    ensures
        token_taken(
            ready(
                sep + (seq![0x3au8] + (w + (seq![0x5bu8] + rest))),
                TokenState::ObjectColon,
                stack,
            ),
        ) == (
            Polled::Ready(Ok::<TokenView, Seq<char>>(TokenView::Delim('['))),
            ready(rest, TokenState::ArrayStart, stack.push(TokenState::ObjectValue)),
        ),
{
    let open = seq![0x5bu8] + rest;
    let inner = seq![0x3au8] + (w + open);
    lemma_peek(sep, inner, TokenState::ObjectColon, stack);
    assert(inner.skip(1) =~= w + open);
    lemma_peek(w, open, TokenState::ObjectValue, stack);
    assert(open.skip(1) =~= rest);
    reveal(token_here);
    reveal(token_taken);
}

/// Taking the bracket that closes an array which is an attribute's value.
proof fn lemma_closing_bracket(w: Seq<u8>, rest: Seq<u8>, stack: Seq<TokenState>)
    requires
        blank(w),
    ensures
        token_taken(
            ready(
                w + (seq![0x5du8] + rest),
                TokenState::ArrayComma,
                stack.push(TokenState::ObjectValue),
            ),
        ) == (
            Polled::Ready(Ok::<TokenView, Seq<char>>(TokenView::Delim(']'))),
            ready(rest, TokenState::ObjectComma, stack),
        ),
{
    let close = seq![0x5du8] + rest;
    let whole = stack.push(TokenState::ObjectValue);
    lemma_peek(w, close, TokenState::ArrayComma, whole);
    assert(close.skip(1) =~= rest);
    assert(whole.drop_last() =~= stack);
    reveal(token_here);
    reveal(token_taken);
}

/// Taking the brace that closes the response.
proof fn lemma_closing_brace(w: Seq<u8>, rest: Seq<u8>)
    requires
        blank(w),
    ensures
        token_taken(
            ready(w + (seq![0x7du8] + rest), TokenState::ObjectComma, seq![TokenState::TopValue]),
        ) == (
            Polled::Ready(Ok::<TokenView, Seq<char>>(TokenView::Delim('}'))),
            ready(rest, TokenState::TopValue, Seq::empty()),
        ),
{
    let close = seq![0x7du8] + rest;
    lemma_peek(w, close, TokenState::ObjectComma, seq![TokenState::TopValue]);
    assert(close.skip(1) =~= rest);
    assert(seq![TokenState::TopValue].drop_last() =~= Seq::<TokenState>::empty());
    reveal(token_here);
    reveal(token_taken);
}

/// An attribute of a response as it is written, the white space around its
/// parts included.
pub struct Attribute {
    pub before: Seq<u8>,
    pub key: Seq<u8>,
    pub before_colon: Seq<u8>,
    pub before_value: Seq<u8>,
    pub value: Seq<u8>,
    pub behind: Seq<u8>,
    /// What the key says.
    pub name: Seq<char>,
}

/// A row as it is written.
pub struct Element {
    pub before: Seq<u8>,
    pub text: Seq<u8>,
    pub behind: Seq<u8>,
}

/// A response as it is written: attributes, the rows among them.
pub struct Response {
    pub before: Seq<u8>,
    pub attributes_before: Seq<Attribute>,
    pub rows_before: Seq<u8>,
    pub rows_key: Seq<u8>,
    pub rows_before_colon: Seq<u8>,
    pub rows_before_open: Seq<u8>,
    pub rows: Seq<Element>,
    pub rows_behind: Seq<u8>,
    pub attributes_behind: Seq<Attribute>,
    pub behind: Seq<u8>,
}

/// Whether this is a key that reads as `name`.
pub open spec fn is_key(key: Seq<u8>, name: Seq<char>) -> bool {
    is_json_value(key) && key[0] == 0x22 && json_string(key) == Ok::<Seq<char>, Seq<char>>(name)
}

impl Attribute {
    pub open spec fn is_attribute(self) -> bool {
        &&& blank(self.before)
        &&& is_key(self.key, self.name)
        &&& blank(self.before_colon)
        &&& blank(self.before_value)
        &&& is_json_value(self.value)
        &&& parsed_value(self.value) is Ok
        &&& blank(self.behind)
    }

    /// The attribute and what stands behind it.
    pub open spec fn in_front_of(self, rest: Seq<u8>) -> Seq<u8> {
        self.before + (self.key + self.behind_key(rest))
    }

    /// What stands behind the key.
    pub open spec fn behind_key(self, rest: Seq<u8>) -> Seq<u8> {
        self.before_colon + (seq![0x3au8] + (self.before_value + (self.value + (self.behind
            + rest))))
    }
}

impl Element {
    pub open spec fn is_element(self) -> bool {
        blank(self.before) && is_json_value(self.text) && blank(self.behind)
    }
}

/// Attributes, each with a comma behind it, and what stands behind them.
pub open spec fn leading(attributes: Seq<Attribute>, rest: Seq<u8>) -> Seq<u8>
    decreases attributes.len(),
{
    if attributes.len() == 0 {
        rest
    } else {
        attributes[0].in_front_of(seq![0x2cu8] + leading(attributes.skip(1), rest))
    }
}

/// Attributes, each with a comma in front of it, the brace behind them, and
/// what stands behind that.
pub open spec fn trailing(attributes: Seq<Attribute>, rest: Seq<u8>) -> Seq<u8>
    decreases attributes.len(),
{
    if attributes.len() == 0 {
        seq![0x7du8] + rest
    } else {
        seq![0x2cu8] + attributes[0].in_front_of(trailing(attributes.skip(1), rest))
    }
}

/// What stands behind a row: the bracket behind the last, else a comma and the
/// others.
pub open spec fn behind_row(others: Seq<Element>, rest: Seq<u8>) -> Seq<u8>
    decreases others.len(),
{
    if others.len() == 0 {
        seq![0x5du8] + rest
    } else {
        seq![0x2cu8] + (others[0].before + (others[0].text + (others[0].behind + behind_row(
            others.skip(1),
            rest,
        ))))
    }
}

impl Response {
    /// What stands behind the bracket that closes the rows.
    pub open spec fn behind_rows(self) -> Seq<u8> {
        self.rows_behind + trailing(self.attributes_behind, self.behind)
    }

    /// What stands behind the bracket that opens the rows.
    pub open spec fn in_rows(self) -> Seq<u8> {
        self.rows[0].before + (self.rows[0].text + (self.rows[0].behind + behind_row(
            self.rows.skip(1),
            self.behind_rows(),
        )))
    }

    /// The rows' attribute, and what stands behind it.
    pub open spec fn rows_attribute(self) -> Seq<u8> {
        self.rows_before + (self.rows_key + (self.rows_before_colon + (seq![0x3au8] + (
        self.rows_before_open + (seq![0x5bu8] + self.in_rows())))))
    }

    /// The response, byte for byte.
    pub open spec fn text(self) -> Seq<u8> {
        self.before + (seq![0x7bu8] + leading(self.attributes_before, self.rows_attribute()))
    }

    /// Whether this is a response whose rows are under `rows_attrib` and are
    /// not none. The attributes in front of the rows go by other names.
    pub open spec fn is_response(self, rows_attrib: Seq<char>) -> bool {
        &&& blank(self.before)
        &&& forall|i: int|
            0 <= i < self.attributes_before.len() ==> (
            #[trigger] self.attributes_before[i]).is_attribute()
                && self.attributes_before[i].name != rows_attrib
        &&& blank(self.rows_before)
        &&& is_key(self.rows_key, rows_attrib)
        &&& blank(self.rows_before_colon)
        &&& blank(self.rows_before_open)
        &&& self.rows.len() > 0
        &&& forall|i: int| 0 <= i < self.rows.len() ==> (#[trigger] self.rows[i]).is_element()
        &&& blank(self.rows_behind)
        &&& forall|i: int|
            0 <= i < self.attributes_behind.len() ==> (
            #[trigger] self.attributes_behind[i]).is_attribute()
    }
}

/// The attributes kept so far, with these added. Of two that go by the same
/// name the later one is kept.
pub open spec fn kept(attribs: Map<Seq<char>, Seq<u8>>, attributes: Seq<Attribute>) -> Map<
    Seq<char>,
    Seq<u8>,
>
    decreases attributes.len(),
{
    if attributes.len() == 0 {
        attribs
    } else {
        kept(
            attribs.insert(attributes[0].name, parsed_value(attributes[0].value)->Ok_0),
            attributes.skip(1),
        )
    }
}

/// The rows, as they are given out: one item for each element, in order, its
/// bytes and nothing around them.
pub open spec fn rows_given(rows: Seq<Element>) -> Seq<Outcome> {
    rows.map_values(|e: Element| Outcome::Row(e.text))
}

/// A streamer at this place, with these bytes in front of it.
spec fn at(
    pending: Seq<u8>,
    state: TokenState,
    stack: Seq<TokenState>,
    rows_attrib: Seq<char>,
    attribs: Map<Seq<char>, Seq<u8>>,
    progress: RowStreamState,
    place: PlaceView,
) -> StreamerView {
    StreamerView {
        d: ready(pending, state, stack),
        rows_attrib,
        attribs,
        state: progress,
        place,
    }
}

proof fn lemma_blank_front(w: Seq<u8>, rest: Seq<u8>)
    requires
        blank(w),
        rest.len() > 0,
        may_follow(rest[0]),
    ensures
        (w + rest).len() > 0,
        may_follow((w + rest)[0]),
{
    if w.len() > 0 {
        assert(is_json_space(w[0]));
        assert((w + rest)[0] == w[0]);
    } else {
        assert(w + rest =~= rest);
    }
}

/// An attribute's key, the comma in front of it included where one is due.
proof fn lemma_begin_key(
    sep: Seq<u8>,
    comma: bool,
    before: Seq<u8>,
    key: Seq<u8>,
    name: Seq<char>,
    rest: Seq<u8>,
    rows_attrib: Seq<char>,
    attribs: Map<Seq<char>, Seq<u8>>,
    progress: RowStreamState,
)
    requires
        blank(sep),
        blank(before),
        is_key(key, name),
        rest.len() > 0,
        may_follow(rest[0]),
        !comma ==> sep.len() == 0,
    ensures
        ({
            let stack = seq![TokenState::TopValue];
            let pending = if comma {
                sep + (seq![0x2cu8] + (before + (key + rest)))
            } else {
                before + (key + rest)
            };
            let state = if comma {
                TokenState::ObjectComma
            } else {
                TokenState::ObjectStart
            };
            begun(
                at(
                    pending,
                    state,
                    stack,
                    rows_attrib,
                    attribs,
                    progress,
                    PlaceView::Members,
                ),
            ) == begun(
                at(
                    rest,
                    TokenState::ObjectColon,
                    stack,
                    rows_attrib,
                    attribs,
                    progress,
                    if name == rows_attrib {
                        PlaceView::RowsOpen
                    } else {
                        PlaceView::MemberValue(name)
                    },
                ),
            )
        }),
{
    let stack = seq![TokenState::TopValue];
    let none = Seq::<u8>::empty();
    let inner = before + (key + rest);
    let (pending, state, looked) = if comma {
        (
            sep + (seq![0x2cu8] + inner),
            TokenState::ObjectComma,
            seq![0x2cu8] + inner,
        )
    } else {
        (inner, TokenState::ObjectStart, key + rest)
    };
    if comma {
        lemma_peek(sep, looked, state, stack);
        assert(none + looked =~= looked);
        lemma_key_behind_comma(none, before, key, name, rest, stack);
    } else {
        lemma_peek(before, looked, state, stack);
        assert(none + looked =~= looked);
        lemma_key(none, key, name, rest, state, stack);
    }
    let s0 = at(pending, state, stack, rows_attrib, attribs, progress, PlaceView::Members);
    let s1 = at(looked, state, stack, rows_attrib, attribs, progress, PlaceView::MemberKey);
    let s2 = at(
        rest,
        TokenState::ObjectColon,
        stack,
        rows_attrib,
        attribs,
        progress,
        if name == rows_attrib {
            PlaceView::RowsOpen
        } else {
            PlaceView::MemberValue(name)
        },
    );
    assert(begin_once(s0) == (Outcome::Go, s1) && begin_once(s1) == (Outcome::Go, s2)) by {
        reveal(begin_once);
    }
    assert(begun(s0) == begun(s1));
    assert(begun(s1) == begun(s2));
}

/// The value of an attribute that is read with the prelude.
proof fn lemma_begin_value(
    a: Attribute,
    rest: Seq<u8>,
    rows_attrib: Seq<char>,
    attribs: Map<Seq<char>, Seq<u8>>,
    progress: RowStreamState,
)
    requires
        a.is_attribute(),
        rest.len() > 0,
        may_follow(rest[0]),
    ensures
        ({
            let stack = seq![TokenState::TopValue];
            begun(
                at(
                    a.behind_key(rest),
                    TokenState::ObjectColon,
                    stack,
                    rows_attrib,
                    attribs,
                    progress,
                    PlaceView::MemberValue(a.name),
                ),
            ) == begun(
                at(
                    a.behind + rest,
                    TokenState::ObjectComma,
                    stack,
                    rows_attrib,
                    attribs.insert(a.name, parsed_value(a.value)->Ok_0),
                    progress,
                    PlaceView::Members,
                ),
            )
        }),
{
    let stack = seq![TokenState::TopValue];
    lemma_blank_front(a.behind, rest);
    lemma_decode_behind(
        a.before_colon,
        a.before_value,
        a.value,
        a.behind + rest,
        TokenState::ObjectColon,
        stack,
    );
    let s0 = at(
        a.behind_key(rest),
        TokenState::ObjectColon,
        stack,
        rows_attrib,
        attribs,
        progress,
        PlaceView::MemberValue(a.name),
    );
    let s1 = at(
        a.behind + rest,
        TokenState::ObjectComma,
        stack,
        rows_attrib,
        attribs.insert(a.name, parsed_value(a.value)->Ok_0),
        progress,
        PlaceView::Members,
    );
    assert(begin_once(s0) == (Outcome::Go, s1)) by {
        reveal(begin_once);
    }
}

proof fn lemma_behind_key_follows(a: Attribute, rest: Seq<u8>)
    requires
        a.is_attribute(),
    ensures
        a.behind_key(rest).len() > 0,
        may_follow(a.behind_key(rest)[0]),
{
    let inner = seq![0x3au8] + (a.before_value + (a.value + (a.behind + rest)));
    assert(inner[0] == 0x3a);
    lemma_blank_front(a.before_colon, inner);
}

/// The attributes in front of the rows are read and kept, up to the rows' key.
proof fn lemma_prelude(
    sep: Seq<u8>,
    comma: bool,
    attributes: Seq<Attribute>,
    before: Seq<u8>,
    key: Seq<u8>,
    rest: Seq<u8>,
    rows_attrib: Seq<char>,
    attribs: Map<Seq<char>, Seq<u8>>,
)
    requires
        blank(sep),
        !comma ==> sep.len() == 0,
        forall|i: int|
            0 <= i < attributes.len() ==> (#[trigger] attributes[i]).is_attribute()
                && attributes[i].name != rows_attrib,
        blank(before),
        is_key(key, rows_attrib),
        rest.len() > 0,
        may_follow(rest[0]),
    ensures
        ({
            let stack = seq![TokenState::TopValue];
            let all = leading(attributes, before + (key + rest));
            begun(
                at(
                    if comma {
                        sep + (seq![0x2cu8] + all)
                    } else {
                        all
                    },
                    if comma {
                        TokenState::ObjectComma
                    } else {
                        TokenState::ObjectStart
                    },
                    stack,
                    rows_attrib,
                    attribs,
                    RowStreamState::Start,
                    PlaceView::Members,
                ),
            ) == begun(
                at(
                    rest,
                    TokenState::ObjectColon,
                    stack,
                    rows_attrib,
                    kept(attribs, attributes),
                    RowStreamState::Start,
                    PlaceView::RowsOpen,
                ),
            )
        }),
    decreases attributes.len(),
{
    if attributes.len() == 0 {
        lemma_begin_key(
            sep,
            comma,
            before,
            key,
            rows_attrib,
            rest,
            rows_attrib,
            attribs,
            RowStreamState::Start,
        );
    } else {
        let a = attributes[0];
        let others = attributes.skip(1);
        let next = seq![0x2cu8] + leading(others, before + (key + rest));
        assert(next[0] == 0x2c);
        assert(a.is_attribute() && a.name != rows_attrib);
        lemma_behind_key_follows(a, next);
        lemma_begin_key(
            sep,
            comma,
            a.before,
            a.key,
            a.name,
            a.behind_key(next),
            rows_attrib,
            attribs,
            RowStreamState::Start,
        );
        lemma_begin_value(a, next, rows_attrib, attribs, RowStreamState::Start);
        assert forall|i: int| 0 <= i < others.len() implies (
        #[trigger] others[i]).is_attribute() && others[i].name != rows_attrib by {
            assert(attributes[i + 1].is_attribute());
        }
        lemma_prelude(
            a.behind,
            true,
            others,
            before,
            key,
            rest,
            rows_attrib,
            attribs.insert(a.name, parsed_value(a.value)->Ok_0),
        );
    }
}

/// Where the rows are: an attribute's value in the outermost object.
spec fn rows_stack() -> Seq<TokenState> {
    seq![TokenState::TopValue].push(TokenState::ObjectValue)
}

/// The bracket that opens the rows ends the prelude.
proof fn lemma_rows_open(
    sep: Seq<u8>,
    w: Seq<u8>,
    first: Element,
    rest: Seq<u8>,
    rows_attrib: Seq<char>,
    attribs: Map<Seq<char>, Seq<u8>>,
)
    requires
        blank(sep),
        blank(w),
        first.is_element(),
    ensures
        begun(
            at(
                sep + (seq![0x3au8] + (w + (seq![0x5bu8] + (first.before + (first.text + rest))))),
                TokenState::ObjectColon,
                seq![TokenState::TopValue],
                rows_attrib,
                attribs,
                RowStreamState::Start,
                PlaceView::RowsOpen,
            ),
        ) == (
            Outcome::Done,
            at(
                first.text + rest,
                TokenState::ArrayStart,
                rows_stack(),
                rows_attrib,
                attribs,
                RowStreamState::Rows,
                PlaceView::Idle,
            ),
        ),
{
    let top = seq![TokenState::TopValue];
    let inner = first.before + (first.text + rest);
    lemma_bracket(sep, w, inner, top);
    lemma_value_begins(first.text);
    lemma_peek(first.before, first.text + rest, TokenState::ArrayStart, rows_stack());
    let s0 = at(
        sep + (seq![0x3au8] + (w + (seq![0x5bu8] + inner))),
        TokenState::ObjectColon,
        top,
        rows_attrib,
        attribs,
        RowStreamState::Start,
        PlaceView::RowsOpen,
    );
    let s1 = at(
        inner,
        TokenState::ArrayStart,
        rows_stack(),
        rows_attrib,
        attribs,
        RowStreamState::Rows,
        PlaceView::RowsFirst,
    );
    let s2 = at(
        first.text + rest,
        TokenState::ArrayStart,
        rows_stack(),
        rows_attrib,
        attribs,
        RowStreamState::Rows,
        PlaceView::Idle,
    );
    assert(begin_once(s0) == (Outcome::Go, s1) && begin_once(s1) == (Outcome::Done, s2)) by {
        reveal(begin_once);
    }
    assert(begun(s0) == begun(s1));
    assert(begun(s1) == (Outcome::Done, s2));
}

/// A streamer in front of a row: of its comma, where one is due.
spec fn before_row(
    comma: bool,
    row: Element,
    others: Seq<Element>,
    rest: Seq<u8>,
    rows_attrib: Seq<char>,
    attribs: Map<Seq<char>, Seq<u8>>,
    place: PlaceView,
) -> StreamerView {
    let inner = row.before + (row.text + (row.behind + behind_row(others, rest)));
    at(
        if comma {
            seq![0x2cu8] + inner
        } else {
            inner
        },
        if comma {
            TokenState::ArrayComma
        } else {
            TokenState::ArrayStart
        },
        rows_stack(),
        rows_attrib,
        attribs,
        RowStreamState::Rows,
        place,
    )
}

/// A row is given out, and what stands behind it comes next.
proof fn lemma_row(
    comma: bool,
    row: Element,
    others: Seq<Element>,
    rest: Seq<u8>,
    rows_attrib: Seq<char>,
    attribs: Map<Seq<char>, Seq<u8>>,
)
    requires
        row.is_element(),
    ensures
        nexted(
            before_row(comma, row, others, rest, rows_attrib, attribs, PlaceView::Idle),
        ) == (
            Outcome::Row(row.text),
            if others.len() == 0 {
                at(
                    rest,
                    TokenState::ObjectComma,
                    seq![TokenState::TopValue],
                    rows_attrib,
                    attribs,
                    RowStreamState::PostRows,
                    PlaceView::Idle,
                )
            } else {
                before_row(
                    true,
                    others[0],
                    others.skip(1),
                    rest,
                    rows_attrib,
                    attribs,
                    PlaceView::Idle,
                )
            },
        ),
{
    let progress = RowStreamState::Rows;
    let next = behind_row(others, rest);
    let none = Seq::<u8>::empty();
    let inner = row.before + (row.text + (row.behind + next));
    assert(next[0] == 0x5d || next[0] == 0x2c);
    lemma_blank_front(row.behind, next);
    if comma {
        assert(none + (seq![0x2cu8] + inner) =~= seq![0x2cu8] + inner);
        lemma_decode_behind(
            none,
            row.before,
            row.text,
            row.behind + next,
            TokenState::ArrayComma,
            rows_stack(),
        );
    } else {
        lemma_decode(
            row.before,
            row.text,
            row.behind + next,
            TokenState::ArrayStart,
            rows_stack(),
        );
    }
    lemma_peek(row.behind, next, TokenState::ArrayComma, rows_stack());
    let s0 = before_row(comma, row, others, rest, rows_attrib, attribs, PlaceView::Idle);
    let s1 = before_row(comma, row, others, rest, rows_attrib, attribs, PlaceView::NextRow);
    let s2 = at(
        row.behind + next,
        TokenState::ArrayComma,
        rows_stack(),
        rows_attrib,
        attribs,
        progress,
        PlaceView::RowFollows(row.text),
    );
    assert(next_once(s0) == (Outcome::Go, s1) && next_once(s1) == (Outcome::Go, s2)) by {
        reveal(next_once);
    }
    assert(nexted(s0) == nexted(s1));
    assert(nexted(s1) == nexted(s2));
    if others.len() == 0 {
        assert(none + next =~= next);
        lemma_closing_bracket(none, rest, seq![TokenState::TopValue]);
        let s3 = at(
            next,
            TokenState::ArrayComma,
            rows_stack(),
            rows_attrib,
            attribs,
            progress,
            PlaceView::RowClose(row.text),
        );
        let s4 = at(
            rest,
            TokenState::ObjectComma,
            seq![TokenState::TopValue],
            rows_attrib,
            attribs,
            RowStreamState::PostRows,
            PlaceView::Idle,
        );
        assert(next_once(s2) == (Outcome::Go, s3) && next_once(s3) == (
            Outcome::Row(row.text),
            s4,
        )) by {
            reveal(next_once);
        }
        assert(nexted(s2) == nexted(s3));
    } else {
        let s3 = before_row(
            true,
            others[0],
            others.skip(1),
            rest,
            rows_attrib,
            attribs,
            PlaceView::Idle,
        );
        assert(next_once(s2) == (Outcome::Row(row.text), s3)) by {
            reveal(next_once);
        }
    }
}

/// A streamer behind the rows.
spec fn behind_rows_at(
    w: Seq<u8>,
    attributes: Seq<Attribute>,
    rest: Seq<u8>,
    rows_attrib: Seq<char>,
    attribs: Map<Seq<char>, Seq<u8>>,
    place: PlaceView,
) -> StreamerView {
    at(
        w + trailing(attributes, rest),
        TokenState::ObjectComma,
        seq![TokenState::TopValue],
        rows_attrib,
        attribs,
        RowStreamState::PostRows,
        place,
    )
}

/// Behind the rows the other attributes are kept, and all of them are given out
/// as one object.
proof fn lemma_metadata(
    w: Seq<u8>,
    attributes: Seq<Attribute>,
    rest: Seq<u8>,
    rows_attrib: Seq<char>,
    attribs: Map<Seq<char>, Seq<u8>>,
)
    requires
        blank(w),
        forall|i: int| 0 <= i < attributes.len() ==> (#[trigger] attributes[i]).is_attribute(),
        object_text(kept(attribs, attributes)) is Ok,
    ensures
        nexted(
            behind_rows_at(w, attributes, rest, rows_attrib, attribs, PlaceView::NextKey),
        ) == (
            Outcome::Metadata(object_text(kept(attribs, attributes))->Ok_0),
            at(
                rest,
                TokenState::TopValue,
                Seq::empty(),
                rows_attrib,
                kept(attribs, attributes),
                RowStreamState::End,
                PlaceView::Idle,
            ),
        ),
    decreases attributes.len(),
{
    let top = seq![TokenState::TopValue];
    let progress = RowStreamState::PostRows;
    let s0 = behind_rows_at(w, attributes, rest, rows_attrib, attribs, PlaceView::NextKey);
    if attributes.len() == 0 {
        lemma_closing_brace(w, rest);
        assert(next_once(s0) == (
            Outcome::Metadata(object_text(attribs)->Ok_0),
            at(
                rest,
                TokenState::TopValue,
                Seq::empty(),
                rows_attrib,
                attribs,
                RowStreamState::End,
                PlaceView::Idle,
            ),
        )) by {
            reveal(next_once);
        }
    } else {
        let a = attributes[0];
        let others = attributes.skip(1);
        let next = trailing(others, rest);
        let with_it = attribs.insert(a.name, parsed_value(a.value)->Ok_0);
        assert(a.is_attribute());
        assert(next[0] == 0x7d || next[0] == 0x2c);
        lemma_behind_key_follows(a, next);
        lemma_key_behind_comma(w, a.before, a.key, a.name, a.behind_key(next), top);
        lemma_blank_front(a.behind, next);
        lemma_decode_behind(
            a.before_colon,
            a.before_value,
            a.value,
            a.behind + next,
            TokenState::ObjectColon,
            top,
        );
        let s1 = at(
            a.behind_key(next),
            TokenState::ObjectColon,
            top,
            rows_attrib,
            attribs,
            progress,
            PlaceView::NextValue(a.name),
        );
        let s2 = behind_rows_at(
            a.behind,
            others,
            rest,
            rows_attrib,
            with_it,
            PlaceView::NextKey,
        );
        assert(next_once(s0) == (Outcome::Go, s1) && next_once(s1) == (Outcome::Go, s2)) by {
            reveal(next_once);
        }
        assert(nexted(s0) == nexted(s1));
        assert(nexted(s1) == nexted(s2));
        assert forall|i: int| 0 <= i < others.len() implies (
        #[trigger] others[i]).is_attribute() by {
            assert(attributes[i + 1].is_attribute());
        }
        lemma_metadata(a.behind, others, rest, rows_attrib, with_it);
    }
}

/// The rows in order, and then what stands behind them.
proof fn lemma_rows(
    comma: bool,
    rows: Seq<Element>,
    w: Seq<u8>,
    attributes: Seq<Attribute>,
    rest: Seq<u8>,
    rows_attrib: Seq<char>,
    attribs: Map<Seq<char>, Seq<u8>>,
)
    requires
        rows.len() > 0,
        forall|i: int| 0 <= i < rows.len() ==> (#[trigger] rows[i]).is_element(),
        blank(w),
        forall|i: int| 0 <= i < attributes.len() ==> (#[trigger] attributes[i]).is_attribute(),
        object_text(kept(attribs, attributes)) is Ok,
    ensures
        items_read(
            before_row(
                comma,
                rows[0],
                rows.skip(1),
                w + trailing(attributes, rest),
                rows_attrib,
                attribs,
                PlaceView::Idle,
            ),
            Seq::empty(),
            rows.len() + 2,
        ) == rows_given(rows) + seq![
            Outcome::Metadata(object_text(kept(attribs, attributes))->Ok_0),
            Outcome::Ended,
        ],
    decreases rows.len(),
{
    let none = Seq::<Seq<u8>>::empty();
    let behind = w + trailing(attributes, rest);
    let others = rows.skip(1);
    let last_two = seq![
        Outcome::Metadata(object_text(kept(attribs, attributes))->Ok_0),
        Outcome::Ended,
    ];
    assert(rows[0].is_element());
    lemma_row(comma, rows[0], others, behind, rows_attrib, attribs);
    let s0 = before_row(comma, rows[0], others, behind, rows_attrib, attribs, PlaceView::Idle);
    let s1 = nexted(s0).1;
    assert(items_read(s0, none, rows.len() + 2) == seq![Outcome::Row(rows[0].text)] + items_read(
        s1,
        none,
        rows.len() + 1,
    ));
    if others.len() == 0 {
        lemma_metadata(w, attributes, rest, rows_attrib, attribs);
        let s2 = behind_rows_at(w, attributes, rest, rows_attrib, attribs, PlaceView::NextKey);
        assert(next_once(s1) == (Outcome::Go, s2)) by {
            reveal(next_once);
        }
        assert(nexted(s1) == nexted(s2));
        let s3 = nexted(s2).1;
        assert(next_once(s3) == (Outcome::Ended, s3)) by {
            reveal(next_once);
        }
        assert(nexted(s3) == (Outcome::Ended, s3));
        assert(items_read(s3, none, 0) =~= Seq::<Outcome>::empty());
        assert(items_read(s3, none, 1) =~= seq![Outcome::Ended]);
        assert(items_read(s1, none, 2) =~= last_two);
        assert(rows_given(rows) + last_two =~= seq![Outcome::Row(rows[0].text)] + last_two);
    } else {
        assert forall|i: int| 0 <= i < others.len() implies (
        #[trigger] others[i]).is_element() by {
            assert(rows[i + 1].is_element());
        }
        lemma_rows(true, others, w, attributes, rest, rows_attrib, attribs);
        assert(rows_given(rows) + last_two =~= seq![Outcome::Row(rows[0].text)] + (rows_given(
            others,
        ) + last_two));
    }
}

/// A response reads as what it holds, wherever it was cut into chunks. The
/// prelude is the attributes in front of the rows. The items are one row for
/// each element of the array, in order and byte for byte, then one object of
/// all other attributes, in front of the rows or behind them, and then nothing
/// more.
pub proof fn a_response_reads_as_its_rows_and_then_the_rest(
    response: Response,
    rows_attrib: Seq<char>,
    chunks: Seq<Seq<u8>>,
)
    requires
        response.is_response(rows_attrib),
        joined(chunks) == response.text(),
        object_text(kept(no_members(), response.attributes_before)) is Ok,
        object_text(
            kept(
                kept(no_members(), response.attributes_before),
                response.attributes_behind,
            ),
        ) is Ok,
    ensures
        ({
            let in_front = kept(no_members(), response.attributes_before);
            let all = kept(in_front, response.attributes_behind);
            let fresh = StreamerView {
                d: ready(Seq::empty(), TokenState::TopValue, Seq::empty()),
                rows_attrib,
                attribs: no_members(),
                state: RowStreamState::Start,
                place: PlaceView::Idle,
            };
            response_read(fresh, chunks, response.rows.len() + 2) == (
                Some(Ok::<Seq<u8>, Seq<char>>(object_text(in_front)->Ok_0)),
                rows_given(response.rows) + seq![
                    Outcome::Metadata(object_text(all)->Ok_0),
                    Outcome::Ended,
                ],
            )
        }),
{
    let n = response.rows.len() + 2;
    let in_front = kept(no_members(), response.attributes_before);
    let progress = RowStreamState::Start;
    let none = Seq::<u8>::empty();
    let top = seq![TokenState::TopValue];
    let first = response.rows[0];
    let others = response.rows.skip(1);
    let behind = response.behind_rows();
    let fresh = at(
        none,
        TokenState::TopValue,
        Seq::empty(),
        rows_attrib,
        no_members(),
        progress,
        PlaceView::Idle,
    );
    let whole = response.text();
    a_response_does_not_depend_on_the_chunks(fresh, chunks, n);
    assert(none + whole =~= whole);
    let s0 = at(
        whole,
        TokenState::TopValue,
        Seq::empty(),
        rows_attrib,
        no_members(),
        progress,
        PlaceView::Idle,
    );
    assert(stream_fed(fresh, whole) == s0);
    let s1 = StreamerView { place: PlaceView::Opening, ..s0 };
    let body = leading(response.attributes_before, response.rows_attribute());
    lemma_opening(response.before, body);
    let s2 = at(
        body,
        TokenState::ObjectStart,
        top,
        rows_attrib,
        no_members(),
        progress,
        PlaceView::Members,
    );
    assert(begin_once(s0) == (Outcome::Go, s1) && begin_once(s1) == (Outcome::Go, s2)) by {
        reveal(begin_once);
    }
    assert(begun(s0) == begun(s1));
    assert(begun(s1) == begun(s2));
    let behind_key = response.rows_before_colon + (seq![0x3au8] + (response.rows_before_open + (
    seq![0x5bu8] + response.in_rows())));
    lemma_blank_front(
        response.rows_before_colon,
        seq![0x3au8] + (response.rows_before_open + (seq![0x5bu8] + response.in_rows())),
    );
    lemma_prelude(
        none,
        false,
        response.attributes_before,
        response.rows_before,
        response.rows_key,
        behind_key,
        rows_attrib,
        no_members(),
    );
    let rest = first.behind + behind_row(others, behind);
    assert(first.is_element());
    lemma_rows_open(
        response.rows_before_colon,
        response.rows_before_open,
        first,
        rest,
        rows_attrib,
        in_front,
    );
    let bare = Element { before: none, ..first };
    let s3 = before_row(false, bare, others, behind, rows_attrib, in_front, PlaceView::Idle);
    assert(none + (first.text + rest) =~= first.text + rest);
    assert(begun(s0) == (Outcome::Done, s3));
    let rows = seq![bare] + others;
    assert(rows.skip(1) =~= others);
    assert forall|i: int| 0 <= i < rows.len() implies (#[trigger] rows[i]).is_element() by {
        if i > 0 {
            assert(rows[i] == response.rows[i]);
        }
    }
    lemma_rows(
        false,
        rows,
        response.rows_behind,
        response.attributes_behind,
        response.behind,
        rows_attrib,
        in_front,
    );
    assert(rows_given(rows) =~= rows_given(response.rows));
    assert(prelude_read(s0) == (
        Polled::Ready(Ok::<Seq<u8>, Seq<char>>(object_text(in_front)->Ok_0)),
        s3,
    ));
}

/// The literal for no value.
pub open spec fn null_text() -> Seq<u8> {
    seq![0x6eu8, 0x75u8, 0x6cu8, 0x6cu8]
}

impl Attribute {
    /// Whether this is the rows' attribute with no row in it: an empty array,
    /// or `null`.
    pub open spec fn holds_no_rows(self, rows_attrib: Seq<char>) -> bool {
        &&& blank(self.before)
        &&& self.name == rows_attrib
        &&& is_key(self.key, rows_attrib)
        &&& blank(self.before_colon)
        &&& blank(self.before_value)
        &&& self.value == null_text() || (self.value.len() >= 2 && self.value[0] == 0x5b
            && self.value.last() == 0x5d && blank(self.value.subrange(1, self.value.len() - 1)))
        &&& blank(self.behind)
    }
}

/// A response without a row as it is written: attributes, among which the rows'
/// may be, empty or `null`, in any place.
pub struct RowlessResponse {
    pub before: Seq<u8>,
    pub members: Seq<Attribute>,
    /// What stands between the braces where there are no attributes.
    pub inside: Seq<u8>,
    pub behind: Seq<u8>,
}

impl RowlessResponse {
    /// What stands behind the opening brace.
    pub open spec fn body(self) -> Seq<u8> {
        if self.members.len() == 0 {
            self.inside + (seq![0x7du8] + self.behind)
        } else {
            self.members[0].in_front_of(trailing(self.members.skip(1), self.behind))
        }
    }

    /// The response, byte for byte.
    pub open spec fn text(self) -> Seq<u8> {
        self.before + (seq![0x7bu8] + self.body())
    }

    /// Whether this is a response whose rows would be under `rows_attrib`, and
    /// are none.
    pub open spec fn is_rowless(self, rows_attrib: Seq<char>) -> bool {
        &&& blank(self.before)
        &&& blank(self.inside)
        &&& forall|i: int|
            0 <= i < self.members.len() ==> if (#[trigger] self.members[i]).name == rows_attrib {
                self.members[i].holds_no_rows(rows_attrib)
            } else {
                self.members[i].is_attribute()
            }
    }

    /// The attributes but for the rows', in front of it and behind it.
    pub open spec fn others(self, rows_attrib: Seq<char>) -> Seq<Attribute> {
        self.members.filter(|a: Attribute| a.name != rows_attrib)
    }
}

proof fn lemma_null_is_a_value()
    ensures
        is_json_value(null_text()),
{
    reveal(stepped);
    reveal_with_fuel(extent_from, 6);
    assert(null_text().len() == 4);
}

/// Taking `null` behind its colon.
proof fn lemma_null(sep: Seq<u8>, w: Seq<u8>, rest: Seq<u8>, stack: Seq<TokenState>)
    requires
        blank(sep),
        blank(w),
        rest.len() > 0,
        may_follow(rest[0]),
    ensures
        token_taken(
            ready(
                sep + (seq![0x3au8] + (w + (null_text() + rest))),
                TokenState::ObjectColon,
                stack,
            ),
        ) == (
            Polled::Ready(Ok::<TokenView, Seq<char>>(TokenView::Value(null_text()))),
            ready(rest, TokenState::ObjectComma, stack),
        ),
{
    lemma_null_is_a_value();
    let none = Seq::<u8>::empty();
    let value = null_text() + rest;
    let inner = seq![0x3au8] + (w + value);
    lemma_peek(sep, inner, TokenState::ObjectColon, stack);
    assert(inner.skip(1) =~= w + value);
    lemma_peek(w, value, TokenState::ObjectValue, stack);
    assert(none + value =~= value);
    lemma_decode(none, null_text(), rest, TokenState::ObjectValue, stack);
    reveal(token_here);
    reveal(token_taken);
}

/// Taking the bracket that closes an array in which nothing was read.
proof fn lemma_closing_empty(w: Seq<u8>, rest: Seq<u8>, stack: Seq<TokenState>)
    requires
        blank(w),
    ensures
        token_taken(
            ready(
                w + (seq![0x5du8] + rest),
                TokenState::ArrayStart,
                stack.push(TokenState::ObjectValue),
            ),
        ) == (
            Polled::Ready(Ok::<TokenView, Seq<char>>(TokenView::Delim(']'))),
            ready(rest, TokenState::ObjectComma, stack),
        ),
{
    let close = seq![0x5du8] + rest;
    let whole = stack.push(TokenState::ObjectValue);
    lemma_peek(w, close, TokenState::ArrayStart, whole);
    assert(close.skip(1) =~= rest);
    assert(whole.drop_last() =~= stack);
    reveal(token_here);
    reveal(token_taken);
}

/// How far a response is read behind the rows' attribute with no row in it.
spec fn behind_no_rows(a: Attribute, progress: RowStreamState) -> RowStreamState {
    if a.value == null_text() {
        progress
    } else {
        RowStreamState::PostRows
    }
}

/// Behind the rows' attribute with no row in it the prelude goes on.
proof fn lemma_begin_no_rows(
    a: Attribute,
    rest: Seq<u8>,
    rows_attrib: Seq<char>,
    attribs: Map<Seq<char>, Seq<u8>>,
    progress: RowStreamState,
)
    requires
        a.holds_no_rows(rows_attrib),
        rest.len() > 0,
        may_follow(rest[0]),
    ensures
        ({
            let stack = seq![TokenState::TopValue];
            begun(
                at(
                    a.behind_key(rest),
                    TokenState::ObjectColon,
                    stack,
                    rows_attrib,
                    attribs,
                    progress,
                    PlaceView::RowsOpen,
                ),
            ) == begun(
                at(
                    a.behind + rest,
                    TokenState::ObjectComma,
                    stack,
                    rows_attrib,
                    attribs,
                    behind_no_rows(a, progress),
                    PlaceView::Members,
                ),
            )
        }),
{
    let top = seq![TokenState::TopValue];
    let next = a.behind + rest;
    lemma_blank_front(a.behind, rest);
    let s0 = at(
        a.behind_key(rest),
        TokenState::ObjectColon,
        top,
        rows_attrib,
        attribs,
        progress,
        PlaceView::RowsOpen,
    );
    let end = at(
        next,
        TokenState::ObjectComma,
        top,
        rows_attrib,
        attribs,
        behind_no_rows(a, progress),
        PlaceView::Members,
    );
    if a.value == null_text() {
        lemma_null(a.before_colon, a.before_value, next, top);
        assert(begin_once(s0) == (Outcome::Go, end)) by {
            reveal(begin_once);
        }
    } else {
        let w = a.value.subrange(1, a.value.len() - 1);
        let inner = w + (seq![0x5du8] + next);
        assert(a.value + next =~= seq![0x5bu8] + inner);
        lemma_bracket(a.before_colon, a.before_value, inner, top);
        lemma_peek(w, seq![0x5du8] + next, TokenState::ArrayStart, rows_stack());
        let none = Seq::<u8>::empty();
        assert(none + (seq![0x5du8] + next) =~= seq![0x5du8] + next);
        lemma_closing_empty(none, next, top);
        let s1 = at(
            inner,
            TokenState::ArrayStart,
            rows_stack(),
            rows_attrib,
            attribs,
            RowStreamState::Rows,
            PlaceView::RowsFirst,
        );
        let s2 = at(
            seq![0x5du8] + next,
            TokenState::ArrayStart,
            rows_stack(),
            rows_attrib,
            attribs,
            RowStreamState::Rows,
            PlaceView::RowsClose,
        );
        assert(begin_once(s0) == (Outcome::Go, s1) && begin_once(s1) == (Outcome::Go, s2)
            && begin_once(s2) == (Outcome::Go, end)) by {
            reveal(begin_once);
        }
        assert(begun(s0) == begun(s1));
        assert(begun(s1) == begun(s2));
    }
}

proof fn lemma_kept_but(
    attribs: Map<Seq<char>, Seq<u8>>,
    members: Seq<Attribute>,
    rows_attrib: Seq<char>,
)
    requires
        members.len() > 0,
    ensures
        ({
            let other = |a: Attribute| a.name != rows_attrib;
            kept(attribs, members.filter(other)) == kept(
                if members[0].name != rows_attrib {
                    attribs.insert(members[0].name, parsed_value(members[0].value)->Ok_0)
                } else {
                    attribs
                },
                members.skip(1).filter(other),
            )
        }),
{
    let other = |a: Attribute| a.name != rows_attrib;
    let rest = members.skip(1);
    assert(members =~= seq![members[0]] + rest);
    rest.lemma_filter_prepend(members[0], other);
    if other(members[0]) {
        assert((seq![members[0]] + rest.filter(other)).skip(1) =~= rest.filter(other));
    } else {
        assert(Seq::<Attribute>::empty() + rest.filter(other) =~= rest.filter(other));
    }
}

/// A prelude that meets no row reads on to the closing brace.
proof fn lemma_members(
    sep: Seq<u8>,
    comma: bool,
    members: Seq<Attribute>,
    rest: Seq<u8>,
    rows_attrib: Seq<char>,
    attribs: Map<Seq<char>, Seq<u8>>,
    progress: RowStreamState,
)
    requires
        blank(sep),
        !comma ==> sep.len() == 0 && members.len() > 0,
        forall|i: int|
            0 <= i < members.len() ==> if (#[trigger] members[i]).name == rows_attrib {
                members[i].holds_no_rows(rows_attrib)
            } else {
                members[i].is_attribute()
            },
    ensures
        begun(
            at(
                if comma {
                    sep + trailing(members, rest)
                } else {
                    members[0].in_front_of(trailing(members.skip(1), rest))
                },
                if comma {
                    TokenState::ObjectComma
                } else {
                    TokenState::ObjectStart
                },
                seq![TokenState::TopValue],
                rows_attrib,
                attribs,
                progress,
                PlaceView::Members,
            ),
        ) == (
            Outcome::Done,
            at(
                seq![0x7du8] + rest,
                TokenState::ObjectComma,
                seq![TokenState::TopValue],
                rows_attrib,
                kept(attribs, members.filter(|a: Attribute| a.name != rows_attrib)),
                RowStreamState::End,
                PlaceView::Idle,
            ),
        ),
    decreases members.len(),
{
    let top = seq![TokenState::TopValue];
    if members.len() == 0 {
        lemma_peek(sep, seq![0x7du8] + rest, TokenState::ObjectComma, top);
        let s0 = at(
            sep + trailing(members, rest),
            TokenState::ObjectComma,
            top,
            rows_attrib,
            attribs,
            progress,
            PlaceView::Members,
        );
        let end = at(
            seq![0x7du8] + rest,
            TokenState::ObjectComma,
            top,
            rows_attrib,
            attribs,
            RowStreamState::End,
            PlaceView::Idle,
        );
        assert(members.filter(|a: Attribute| a.name != rows_attrib) =~= members) by {
            reveal(Seq::filter);
        }
        assert(begin_once(s0) == (Outcome::Done, end)) by {
            reveal(begin_once);
        }
    } else {
        let a = members[0];
        let others = members.skip(1);
        let next = trailing(others, rest);
        assert(next[0] == 0x7d || next[0] == 0x2c);
        assert(if a.name == rows_attrib {
            a.holds_no_rows(rows_attrib)
        } else {
            a.is_attribute()
        });
        let inner = seq![0x3au8] + (a.before_value + (a.value + (a.behind + next)));
        assert(inner[0] == 0x3a);
        lemma_blank_front(a.before_colon, inner);
        lemma_begin_key(
            sep,
            comma,
            a.before,
            a.key,
            a.name,
            a.behind_key(next),
            rows_attrib,
            attribs,
            progress,
        );
        lemma_kept_but(attribs, members, rows_attrib);
        assert forall|i: int| 0 <= i < others.len() implies if (
        #[trigger] others[i]).name == rows_attrib {
            others[i].holds_no_rows(rows_attrib)
        } else {
            others[i].is_attribute()
        } by {
            assert(others[i] == members[i + 1]);
        }
        if a.name == rows_attrib {
            lemma_begin_no_rows(a, next, rows_attrib, attribs, progress);
            lemma_members(
                a.behind,
                true,
                others,
                rest,
                rows_attrib,
                attribs,
                behind_no_rows(a, progress),
            );
        } else {
            lemma_begin_value(a, next, rows_attrib, attribs, progress);
            lemma_members(
                a.behind,
                true,
                others,
                rest,
                rows_attrib,
                attribs.insert(a.name, parsed_value(a.value)->Ok_0),
                progress,
            );
        }
    }
}

/// Where a prelude that was read chunk by chunk has left the streamer, and the
/// chunks that were not needed for it.
pub open spec fn prelude_left(s: StreamerView, chunks: Seq<Seq<u8>>) -> Option<
    (StreamerView, Seq<Seq<u8>>),
>
    decreases chunks.len(),
{
    let (answer, after) = prelude_read(s);
    match answer {
        Polled::Ready(Ok(_)) => Some((after, chunks)),
        Polled::Ready(Err(_)) => None,
        Polled::NeedChunk => if chunks.len() == 0 {
            None
        } else {
            prelude_left(stream_fed(after, chunks[0]), chunks.skip(1))
        },
    }
}

proof fn lemma_prelude_left(s: StreamerView, chunks: Seq<Seq<u8>>, end: StreamerView)
    requires
        goes_on(s.d),
        begun(stream_fed(s, joined(chunks))).0 is Done,
        streams_alike(begun(stream_fed(s, joined(chunks))).1, end),
        object_text(end.attribs) is Ok,
    ensures
        prelude_left(s, chunks) matches Some((left, rest)) && streams_alike(
            stream_fed(left, joined(rest)),
            end,
        ),
    decreases chunks.len(),
{
    let all = joined(chunks);
    let (out, after) = begun(s);
    the_prelude_does_not_depend_on_the_chunks(s, all);
    lemma_begun_settles(s);
    lemma_begun_keeps_going(s);
    if out is Done {
        assert(streams_alike(stream_fed(after, all), end));
    } else if out is Wait {
        if chunks.len() == 0 {
            let f = stream_fed(s, all);
            assert(s.d.pending + all =~= s.d.pending);
            lemma_begun_alike(s, f);
        } else {
            let c = chunks[0];
            let rest = joined(chunks.skip(1));
            let f = stream_fed(after, c);
            let e = stream_fed(f, rest);
            let g = stream_fed(after, all);
            assert((after.d.pending + c) + rest =~= after.d.pending + all);
            assert(streams_alike(e, g));
            lemma_begun_alike(e, g);
            lemma_prelude_left(f, chunks.skip(1), end);
        }
    }
}

/// A response without a row reads as what it holds, wherever it was cut into
/// chunks: whether its row array is empty, is `null` or is not there, the
/// prelude succeeds and is one object of every other attribute, those in front
/// of the rows and those behind them alike. No row is given, however often one
/// is asked for. The closing brace has then been reached: it is the next byte,
/// and everything in front of it was read and kept.
pub proof fn a_response_without_rows_reads_as_all_its_attributes(
    response: RowlessResponse,
    rows_attrib: Seq<char>,
    chunks: Seq<Seq<u8>>,
    n: nat,
)
    requires
        response.is_rowless(rows_attrib),
        joined(chunks) == response.text(),
        object_text(kept(no_members(), response.others(rows_attrib))) is Ok,
    ensures
        ({
            let all = kept(no_members(), response.others(rows_attrib));
            let fresh = StreamerView {
                d: ready(Seq::empty(), TokenState::TopValue, Seq::empty()),
                rows_attrib,
                attribs: no_members(),
                state: RowStreamState::Start,
                place: PlaceView::Idle,
            };
            &&& response_read(fresh, chunks, n) == (
                Some(Ok::<Seq<u8>, Seq<char>>(object_text(all)->Ok_0)),
                Seq::new(n, |i: int| Outcome::Ended),
            )
            &&& prelude_left(fresh, chunks) matches Some((left, rest))
            &&& left.attribs == all
            &&& left.state == RowStreamState::End
            &&& left.d.pending + joined(rest) == seq![0x7du8] + response.behind
        }),
{
    let all = kept(no_members(), response.others(rows_attrib));
    let progress = RowStreamState::Start;
    let none = Seq::<u8>::empty();
    let top = seq![TokenState::TopValue];
    let fresh = at(
        none,
        TokenState::TopValue,
        Seq::empty(),
        rows_attrib,
        no_members(),
        progress,
        PlaceView::Idle,
    );
    let whole = response.text();
    a_response_does_not_depend_on_the_chunks(fresh, chunks, n);
    assert(none + whole =~= whole);
    let s0 = at(
        whole,
        TokenState::TopValue,
        Seq::empty(),
        rows_attrib,
        no_members(),
        progress,
        PlaceView::Idle,
    );
    assert(stream_fed(fresh, whole) == s0);
    let s1 = StreamerView { place: PlaceView::Opening, ..s0 };
    let body = response.body();
    lemma_opening(response.before, body);
    let s2 = at(
        body,
        TokenState::ObjectStart,
        top,
        rows_attrib,
        no_members(),
        progress,
        PlaceView::Members,
    );
    assert(begin_once(s0) == (Outcome::Go, s1) && begin_once(s1) == (Outcome::Go, s2)) by {
        reveal(begin_once);
    }
    assert(begun(s0) == begun(s1));
    assert(begun(s1) == begun(s2));
    let brace = seq![0x7du8] + response.behind;
    let end = at(
        brace,
        if response.members.len() == 0 {
            TokenState::ObjectStart
        } else {
            TokenState::ObjectComma
        },
        top,
        rows_attrib,
        all,
        RowStreamState::End,
        PlaceView::Idle,
    );
    if response.members.len() == 0 {
        lemma_peek(response.inside, brace, TokenState::ObjectStart, top);
        assert(response.others(rows_attrib) =~= response.members) by {
            reveal(Seq::filter);
        }
        assert(begin_once(s2) == (Outcome::Done, end)) by {
            reveal(begin_once);
        }
    } else {
        lemma_members(
            none,
            false,
            response.members,
            response.behind,
            rows_attrib,
            no_members(),
            progress,
        );
    }
    assert(begun(s0) == (Outcome::Done, end));
    lemma_nothing_more(end, n);
    lemma_prelude_left(fresh, chunks, end);
}

/// Behind the end nothing more is read, however often it is tried.
proof fn lemma_nothing_more(s: StreamerView, n: nat)
    requires
        s.state == RowStreamState::End,
        s.place is Idle,
    ensures
        items_read(s, Seq::empty(), n) == Seq::new(n, |i: int| Outcome::Ended),
    decreases n,
{
    assert(next_once(s) == (Outcome::Ended, s)) by {
        reveal(next_once);
    }
    assert(nexted(s) == (Outcome::Ended, s));
    if n > 0 {
        lemma_nothing_more(s, (n - 1) as nat);
        assert(seq![Outcome::Ended] + Seq::new((n - 1) as nat, |i: int| Outcome::Ended)
            =~= Seq::new(n, |i: int| Outcome::Ended));
    } else {
        assert(items_read(s, Seq::empty(), n) =~= Seq::new(n, |i: int| Outcome::Ended));
    }
}

} // verus!
