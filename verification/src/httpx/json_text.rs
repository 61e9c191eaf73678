//! What a JSON text is, and that it is read as one value.
use vstd::prelude::*;
use crate::httpx::decoder::{extent, extent_from, is_over, is_space, Extent};
use crate::httpx::response::is_json_value;
use crate::httpx::scanner::{at_start, end_value, stepped, Lex, Nest, ScanState, ScanView};

verus! {

/// White space, as much of it as there is: blanks, tabs and line ends.
pub open spec fn is_gap(w: Seq<u8>) -> bool {
    forall|i: int|
        0 <= i < w.len() ==> #[trigger] w[i] == 0x20 || w[i] == 0x09 || w[i] == 0x0a || w[i] == 0x0d
}

/// Decimal digits, at least one.
pub open spec fn are_digits(d: Seq<u8>) -> bool {
    d.len() > 0 && forall|i: int| 0 <= i < d.len() ==> 0x30 <= #[trigger] d[i] <= 0x39
}

/// A number: a whole part, and behind it what it has of a fraction and of an
/// exponent. The mark of an exponent is an `e` and may have a sign behind it.
pub struct Number {
    pub negative: bool,
    pub whole: Seq<u8>,
    pub fraction: Option<Seq<u8>>,
    pub exponent: Option<(Seq<u8>, Seq<u8>)>,
}

impl Number {
    pub open spec fn is_number(self) -> bool {
        &&& are_digits(self.whole)
        &&& self.whole[0] == 0x30 ==> self.whole.len() == 1
        &&& self.fraction matches Some(digits) ==> are_digits(digits)
        &&& self.exponent matches Some((mark, digits)) ==> {
            &&& are_digits(digits)
            &&& mark == seq![0x65u8] || mark == seq![0x45u8] || mark == seq![0x65u8, 0x2bu8] || mark
                == seq![0x65u8, 0x2du8] || mark == seq![0x45u8, 0x2bu8] || mark
                == seq![0x45u8, 0x2du8]
        }
    }

    pub open spec fn sign(self) -> Seq<u8> {
        if self.negative {
            seq![0x2d]
        } else {
            Seq::empty()
        }
    }

    pub open spec fn fraction_text(self) -> Seq<u8> {
        match self.fraction {
            Some(digits) => seq![0x2e] + digits,
            None => Seq::empty(),
        }
    }

    pub open spec fn exponent_text(self) -> Seq<u8> {
        match self.exponent {
            Some((mark, digits)) => mark + digits,
            None => Seq::empty(),
        }
    }

    pub open spec fn text(self) -> Seq<u8> {
        self.sign() + self.whole + self.fraction_text() + self.exponent_text()
    }
}

/// What stands for a character of a string, or for a byte of one.
pub enum Letter {
    /// A byte that stands for itself.
    Plain(u8),
    /// A byte behind a backslash.
    Escape(u8),
    /// Four hexadecimal digits behind a backslash and a `u`.
    Unicode(u8, u8, u8, u8),
}

/// A hexadecimal digit, in either case.
pub open spec fn is_hex(c: u8) -> bool {
    0x30 <= c <= 0x39 || 0x61 <= c <= 0x66 || 0x41 <= c <= 0x46
}

impl Letter {
    pub open spec fn is_letter(self) -> bool {
        match self {
            Letter::Plain(c) => c >= 0x20 && c != 0x22 && c != 0x5c,
            Letter::Escape(c) => c == 0x22 || c == 0x5c || c == 0x2f || c == 0x62 || c == 0x66 || c
                == 0x6e || c == 0x72 || c == 0x74,
            Letter::Unicode(a, b, c, d) => is_hex(a) && is_hex(b) && is_hex(c) && is_hex(d),
        }
    }

    pub open spec fn text(self) -> Seq<u8> {
        match self {
            Letter::Plain(c) => seq![c],
            Letter::Escape(c) => seq![0x5c, c],
            Letter::Unicode(a, b, c, d) => seq![0x5c, 0x75, a, b, c, d],
        }
    }
}

pub open spec fn are_letters(letters: Seq<Letter>) -> bool {
    forall|i: int| 0 <= i < letters.len() ==> (#[trigger] letters[i]).is_letter()
}

pub open spec fn letters_text(letters: Seq<Letter>) -> Seq<u8>
    decreases letters.len(),
{
    if letters.len() == 0 {
        Seq::empty()
    } else {
        letters_text(letters.drop_last()) + letters.last().text()
    }
}

pub open spec fn string_text(letters: Seq<Letter>) -> Seq<u8> {
    seq![0x22] + letters_text(letters) + seq![0x22]
}

/// A JSON value, with the white space that it is written with.
pub enum Json {
    Null,
    True,
    False,
    Number(Number),
    Text(Seq<Letter>),
    EmptyArray(Seq<u8>),
    Array(Box<Items>),
    EmptyObject(Seq<u8>),
    Object(Box<Members>),
}

/// A value of an array with the white space around it, and those behind it.
pub enum Items {
    Last(Seq<u8>, Json, Seq<u8>),
    More(Seq<u8>, Json, Seq<u8>, Box<Items>),
}

/// A key of an object and its value, each with the white space around it, and
/// those behind them.
pub enum Members {
    Last((Seq<u8>, Seq<Letter>, Seq<u8>), Seq<u8>, Json, Seq<u8>),
    More((Seq<u8>, Seq<Letter>, Seq<u8>), Seq<u8>, Json, Seq<u8>, Box<Members>),
}

pub open spec fn is_json(j: Json) -> bool
    decreases j,
{
    match j {
        Json::Number(n) => n.is_number(),
        Json::Text(letters) => are_letters(letters),
        Json::EmptyArray(w) => is_gap(w),
        Json::Array(items) => are_items(*items),
        Json::EmptyObject(w) => is_gap(w),
        Json::Object(members) => are_members(*members),
        _ => true,
    }
}

pub open spec fn are_items(items: Items) -> bool
    decreases items,
{
    match items {
        Items::Last(before, value, after) => is_gap(before) && is_json(value) && is_gap(after),
        Items::More(before, value, after, rest) => is_gap(before) && is_json(value) && is_gap(after)
            && are_items(*rest),
    }
}

pub open spec fn is_named_by(key: (Seq<u8>, Seq<Letter>, Seq<u8>)) -> bool {
    is_gap(key.0) && are_letters(key.1) && is_gap(key.2)
}

pub open spec fn are_members(members: Members) -> bool
    decreases members,
{
    match members {
        Members::Last(key, before, value, after) => is_named_by(key) && is_gap(before) && is_json(
            value,
        ) && is_gap(after),
        Members::More(key, before, value, after, rest) => is_named_by(key) && is_gap(before)
            && is_json(value) && is_gap(after) && are_members(*rest),
    }
}

/// How a value is written.
pub open spec fn json_text(j: Json) -> Seq<u8>
    decreases j,
{
    match j {
        Json::Null => seq![0x6e, 0x75, 0x6c, 0x6c],
        Json::True => seq![0x74, 0x72, 0x75, 0x65],
        Json::False => seq![0x66, 0x61, 0x6c, 0x73, 0x65],
        Json::Number(n) => n.text(),
        Json::Text(letters) => string_text(letters),
        Json::EmptyArray(w) => seq![0x5b] + w + seq![0x5d],
        Json::Array(items) => seq![0x5b] + items_text(*items) + seq![0x5d],
        Json::EmptyObject(w) => seq![0x7b] + w + seq![0x7d],
        Json::Object(members) => seq![0x7b] + members_text(*members) + seq![0x7d],
    }
}

pub open spec fn items_text(items: Items) -> Seq<u8>
    decreases items,
{
    match items {
        Items::Last(before, value, after) => before + json_text(value) + after,
        Items::More(before, value, after, rest) => before + json_text(value) + after + seq![0x2c]
            + items_text(*rest),
    }
}

pub open spec fn key_text(key: (Seq<u8>, Seq<Letter>, Seq<u8>)) -> Seq<u8> {
    key.0 + string_text(key.1) + key.2 + seq![0x3a]
}

pub open spec fn members_text(members: Members) -> Seq<u8>
    decreases members,
{
    match members {
        Members::Last(key, before, value, after) => key_text(key) + before + json_text(value)
            + after,
        Members::More(key, before, value, after, rest) => key_text(key) + before + json_text(value)
            + after + seq![0x2c] + members_text(*rest),
    }
}

/// Where the scanner stands behind some bytes none of which ended the value.
spec fn run(s: ScanView, bytes: Seq<u8>) -> Option<ScanView>
    decreases bytes.len(),
{
    if bytes.len() == 0 {
        Some(s)
    } else {
        let (next, code) = stepped(s, bytes[0]);
        if is_over(next, code) {
            None
        } else {
            run(next, bytes.skip(1))
        }
    }
}

spec fn run_on(s: Option<ScanView>, bytes: Seq<u8>) -> Option<ScanView> {
    match s {
        Some(s) => run(s, bytes),
        None => None,
    }
}

proof fn lemma_run_on(s: ScanView, a: Seq<u8>, b: Seq<u8>)
    ensures
        run(s, a + b) == run_on(run(s, a), b),
    decreases a.len(),
{
    if a.len() == 0 {
        assert(a + b =~= b);
    } else {
        let (next, code) = stepped(s, a[0]);
        assert((a + b)[0] == a[0]);
        assert((a + b).skip(1) =~= a.skip(1) + b);
        if !is_over(next, code) {
            lemma_run_on(next, a.skip(1), b);
        }
    }
}

proof fn lemma_run_byte(s: ScanView, c: u8)
    ensures
        run(s, seq![c]) == (if is_over(stepped(s, c).0, stepped(s, c).1) {
            None
        } else {
            Some(stepped(s, c).0)
        }),
{
    let (next, code) = stepped(s, c);
    assert(seq![c].skip(1) =~= Seq::<u8>::empty());
    assert(run(next, Seq::<u8>::empty()) == Some(next));
}

proof fn lemma_run_extent(s: ScanView, a: Seq<u8>, bytes: Seq<u8>, at: int)
    requires
        0 <= at,
        at + a.len() <= bytes.len(),
        bytes.subrange(at, at + a.len()) == a,
        run(s, a) is Some,
    ensures
        extent_from(s, bytes, at) == extent_from(run(s, a)->0, bytes, at + a.len()),
    decreases a.len(),
{
    if a.len() > 0 {
        assert(a[0] == bytes[at]);
        let (next, code) = stepped(s, a[0]);
        assert(bytes.subrange(at + 1, at + 1 + a.skip(1).len()) =~= a.skip(1));
        lemma_run_extent(next, a.skip(1), bytes, at + 1);
    }
}

/// A value may have ended here.
spec fn is_behind(lex: Lex) -> bool {
    lex == Lex::EndValue || lex == Lex::Zero || lex == Lex::Digits || lex == Lex::DotDigits || lex
        == Lex::ExpDigits
}

/// A byte behind a value that is no part of a number.
proof fn lemma_behind(s: ScanView, c: u8)
    requires
        is_behind(s.lex),
        c == 0x20 || c == 0x09 || c == 0x0a || c == 0x0d || c == 0x2c || c == 0x3a || c == 0x5d || c
            == 0x7d,
    ensures
        stepped(s, c) == end_value(s, c),
{
    reveal(stepped);
}

proof fn lemma_gap_in_front(s: ScanView, w: Seq<u8>)
    requires
        is_gap(w),
        s.lex == Lex::BeginValue || s.lex == Lex::BeginValueOrEmpty || s.lex == Lex::BeginString
            || s.lex == Lex::BeginStringOrEmpty,
    ensures
        run(s, w) == Some(s),
    decreases w.len(),
{
    if w.len() > 0 {
        reveal(stepped);
        assert(w[0] == 0x20 || w[0] == 0x09 || w[0] == 0x0a || w[0] == 0x0d);
        assert forall|i: int| 0 <= i < w.skip(1).len() implies #[trigger] w.skip(1)[i] == 0x20
            || w.skip(1)[i] == 0x09 || w.skip(1)[i] == 0x0a || w.skip(1)[i] == 0x0d by {
            assert(w.skip(1)[i] == w[i + 1]);
        }
        lemma_gap_in_front(s, w.skip(1));
    }
}

proof fn lemma_gap_behind(s: ScanView, w: Seq<u8>)
    requires
        is_gap(w),
        is_behind(s.lex),
        s.stack.len() > 0,
    ensures
        run(s, w) matches Some(t) && is_behind(t.lex) && t.stack == s.stack && t.err == s.err,
    decreases w.len(),
{
    if w.len() > 0 {
        assert(w[0] == 0x20 || w[0] == 0x09 || w[0] == 0x0a || w[0] == 0x0d);
        lemma_behind(s, w[0]);
        assert forall|i: int| 0 <= i < w.skip(1).len() implies #[trigger] w.skip(1)[i] == 0x20
            || w.skip(1)[i] == 0x09 || w.skip(1)[i] == 0x0a || w.skip(1)[i] == 0x0d by {
            assert(w.skip(1)[i] == w[i + 1]);
        }
        lemma_gap_behind(stepped(s, w[0]).0, w.skip(1));
    }
}

proof fn lemma_digits(s: ScanView, d: Seq<u8>)
    requires
        forall|i: int| 0 <= i < d.len() ==> 0x30 <= #[trigger] d[i] <= 0x39,
        s.lex == Lex::Digits || s.lex == Lex::DotDigits || s.lex == Lex::ExpDigits,
    ensures
        run(s, d) == Some(s),
    decreases d.len(),
{
    if d.len() > 0 {
        reveal(stepped);
        assert(0x30 <= d[0] <= 0x39);
        assert forall|i: int| 0 <= i < d.skip(1).len() implies 0x30 <= #[trigger] d.skip(1)[i]
            <= 0x39 by {
            assert(d.skip(1)[i] == d[i + 1]);
        }
        lemma_digits(s, d.skip(1));
    }
}

/// Digits where at least one is due.
proof fn lemma_some_digits(s: ScanView, d: Seq<u8>)
    requires
        are_digits(d),
        s.lex == Lex::Dot || s.lex == Lex::Exp || s.lex == Lex::ExpSign,
    ensures
        run(s, d) matches Some(t) && is_behind(t.lex) && t.stack == s.stack && t.err == s.err
            && t.lex == (if s.lex == Lex::Dot {
            Lex::DotDigits
        } else {
            Lex::ExpDigits
        }),
{
    reveal(stepped);
    assert(0x30 <= d[0] <= 0x39);
    assert forall|i: int| 0 <= i < d.skip(1).len() implies 0x30 <= #[trigger] d.skip(1)[i]
        <= 0x39 by {
        assert(d.skip(1)[i] == d[i + 1]);
    }
    lemma_digits(stepped(s, d[0]).0, d.skip(1));
}

proof fn lemma_whole(s: ScanView, n: Number)
    requires
        n.is_number(),
        s.lex == Lex::BeginValue,
    ensures
        run(s, n.sign() + n.whole) matches Some(t) && (t.lex == Lex::Zero || t.lex == Lex::Digits)
            && t.stack == s.stack && t.err == s.err,
{
    lemma_run_on(s, n.sign(), n.whole);
    reveal(stepped);
    if n.negative {
        lemma_run_byte(s, 0x2d);
    }
    let at = run(s, n.sign())->0;
    assert(0x30 <= n.whole[0] <= 0x39);
    let (next, code) = stepped(at, n.whole[0]);
    let rest = n.whole.skip(1);
    assert forall|i: int| 0 <= i < rest.len() implies 0x30 <= #[trigger] rest[i] <= 0x39 by {
        assert(rest[i] == n.whole[i + 1]);
    }
    if n.whole[0] == 0x30 {
        assert(rest.len() == 0);
    } else {
        lemma_digits(next, rest);
    }
}

proof fn lemma_fraction(s: ScanView, n: Number)
    requires
        n.is_number(),
        s.lex == Lex::Zero || s.lex == Lex::Digits,
    ensures
        run(s, n.fraction_text()) matches Some(t) && (t.lex == Lex::Zero || t.lex == Lex::Digits
            || t.lex == Lex::DotDigits) && t.stack == s.stack && t.err == s.err,
{
    if let Some(digits) = n.fraction {
        reveal(stepped);
        lemma_run_on(s, seq![0x2eu8], digits);
        lemma_run_byte(s, 0x2e);
        lemma_some_digits(stepped(s, 0x2e).0, digits);
    }
}

proof fn lemma_exponent(s: ScanView, n: Number)
    requires
        n.is_number(),
        s.lex == Lex::Zero || s.lex == Lex::Digits || s.lex == Lex::DotDigits,
    ensures
        run(s, n.exponent_text()) matches Some(t) && is_behind(t.lex) && t.stack == s.stack && t.err
            == s.err,
{
    if let Some((mark, digits)) = n.exponent {
        reveal(stepped);
        lemma_run_on(s, mark, digits);
        lemma_run_byte(s, mark[0]);
        let at = stepped(s, mark[0]).0;
        if mark.len() == 1 {
            assert(mark =~= seq![mark[0]]);
            lemma_some_digits(at, digits);
        } else {
            assert(mark =~= seq![mark[0]] + seq![mark[1]]);
            lemma_run_on(s, seq![mark[0]], seq![mark[1]]);
            lemma_run_byte(at, mark[1]);
            lemma_some_digits(stepped(at, mark[1]).0, digits);
        }
    }
}

proof fn lemma_number(s: ScanView, n: Number)
    requires
        n.is_number(),
        s.lex == Lex::BeginValue,
    ensures
        run(s, n.text()) matches Some(t) && is_behind(t.lex) && t.stack == s.stack && t.err == s.err,
{
    let a = n.sign() + n.whole;
    lemma_whole(s, n);
    let s1 = run(s, a)->0;
    lemma_run_on(s, a, n.fraction_text());
    lemma_fraction(s1, n);
    let s2 = run(s1, n.fraction_text())->0;
    lemma_run_on(s, a + n.fraction_text(), n.exponent_text());
    lemma_exponent(s2, n);
}

proof fn lemma_letter(s: ScanView, letter: Letter)
    requires
        letter.is_letter(),
        s.lex == Lex::InString,
    ensures
        run(s, letter.text()) == Some(s),
{
    reveal(stepped);
    match letter {
        Letter::Plain(c) => {
            lemma_run_byte(s, c);
        },
        Letter::Escape(c) => {
            assert(letter.text() =~= seq![0x5cu8] + seq![c]);
            lemma_run_on(s, seq![0x5cu8], seq![c]);
            lemma_run_byte(s, 0x5c);
            lemma_run_byte(stepped(s, 0x5c).0, c);
        },
        Letter::Unicode(a, b, c, d) => {
            assert(letter.text() =~= seq![0x5cu8] + seq![0x75u8] + seq![a] + seq![b] + seq![c]
                + seq![d]);
            lemma_run_on(s, seq![0x5cu8], seq![0x75u8]);
            lemma_run_on(s, seq![0x5cu8] + seq![0x75u8], seq![a]);
            lemma_run_on(s, seq![0x5cu8] + seq![0x75u8] + seq![a], seq![b]);
            lemma_run_on(s, seq![0x5cu8] + seq![0x75u8] + seq![a] + seq![b], seq![c]);
            lemma_run_on(s, seq![0x5cu8] + seq![0x75u8] + seq![a] + seq![b] + seq![c], seq![d]);
            let s0 = stepped(s, 0x5c).0;
            let s1 = stepped(s0, 0x75).0;
            let s2 = stepped(s1, a).0;
            let s3 = stepped(s2, b).0;
            let s4 = stepped(s3, c).0;
            lemma_run_byte(s, 0x5c);
            lemma_run_byte(s0, 0x75);
            lemma_run_byte(s1, a);
            lemma_run_byte(s2, b);
            lemma_run_byte(s3, c);
            lemma_run_byte(s4, d);
        },
    }
}

proof fn lemma_letters(s: ScanView, letters: Seq<Letter>)
    requires
        are_letters(letters),
        s.lex == Lex::InString,
    ensures
        run(s, letters_text(letters)) == Some(s),
    decreases letters.len(),
{
    if letters.len() > 0 {
        let front = letters.drop_last();
        assert forall|i: int| 0 <= i < front.len() implies (#[trigger] front[i]).is_letter() by {
            assert(front[i] == letters[i]);
        }
        lemma_letters(s, front);
        lemma_run_on(s, letters_text(front), letters.last().text());
        assert(letters[letters.len() - 1].is_letter());
        lemma_letter(s, letters.last());
    }
}

proof fn lemma_string(s: ScanView, letters: Seq<Letter>)
    requires
        are_letters(letters),
        s.lex == Lex::BeginValue || s.lex == Lex::BeginString || s.lex == Lex::BeginStringOrEmpty,
    ensures
        run(s, string_text(letters)) == Some((ScanView { lex: Lex::EndValue, ..s })),
{
    reveal(stepped);
    let open = stepped(s, 0x22).0;
    lemma_run_byte(s, 0x22);
    lemma_run_on(s, seq![0x22u8], letters_text(letters));
    lemma_letters(open, letters);
    lemma_run_on(s, seq![0x22u8] + letters_text(letters), seq![0x22u8]);
    lemma_run_byte(open, 0x22);
}

/// A value that is no object and no array.
spec fn is_scalar(j: Json) -> bool {
    j is Null || j is True || j is False || j is Number || j is Text
}

proof fn lemma_word(s: ScanView, j: Json)
    requires
        j is Null || j is True || j is False,
        s.lex == Lex::BeginValue,
    ensures
        run(s, json_text(j)) == Some((ScanView { lex: Lex::EndValue, ..s })),
{
    reveal(stepped);
    let w = json_text(j);
    let s1 = stepped(s, w[0]).0;
    let s2 = stepped(s1, w[1]).0;
    let s3 = stepped(s2, w[2]).0;
    let s4 = stepped(s3, w[3]).0;
    lemma_run_byte(s, w[0]);
    lemma_run_byte(s1, w[1]);
    lemma_run_byte(s2, w[2]);
    lemma_run_byte(s3, w[3]);
    let two = seq![w[0]] + seq![w[1]];
    let four = two + seq![w[2]] + seq![w[3]];
    lemma_run_on(s, seq![w[0]], seq![w[1]]);
    lemma_run_on(s, two, seq![w[2]]);
    lemma_run_on(s, two + seq![w[2]], seq![w[3]]);
    if j is False {
        lemma_run_byte(s4, w[4]);
        lemma_run_on(s, four, seq![w[4]]);
        assert(w =~= four + seq![w[4]]);
    } else {
        assert(w =~= four);
    }
}

proof fn lemma_scalar(s: ScanView, j: Json)
    requires
        is_json(j),
        is_scalar(j),
        s.lex == Lex::BeginValue,
    ensures
        run(s, json_text(j)) matches Some(t) && is_behind(t.lex) && t.stack == s.stack && t.err
            == s.err,
{
    match j {
        Json::Number(n) => lemma_number(s, n),
        Json::Text(letters) => lemma_string(s, letters),
        _ => lemma_word(s, j),
    }
}

/// What a value begins with: nothing that closes, separates or is white space.
proof fn lemma_first_byte(j: Json)
    requires
        is_json(j),
    ensures
        json_text(j).len() > 0,
        !is_space(json_text(j)[0]),
        json_text(j)[0] != 0x5d,
        !is_space(json_text(j).last()),
{
    if let Json::Number(n) = j {
        assert(0x30 <= n.whole[0] <= 0x39);
        assert(0x30 <= n.whole[n.whole.len() - 1] <= 0x39);
        if let Some(digits) = n.fraction {
            assert(0x30 <= digits[digits.len() - 1] <= 0x39);
        }
        if let Some((mark, digits)) = n.exponent {
            assert(0x30 <= digits[digits.len() - 1] <= 0x39);
        }
    }
}

/// The first value of an array begins as any other does.
proof fn lemma_first_item(s: ScanView, text: Seq<u8>)
    requires
        text.len() > 0,
        !is_space(text[0]),
        text[0] != 0x5d,
        s.lex == Lex::BeginValueOrEmpty,
    ensures
        run(s, text) == run(ScanView { lex: Lex::BeginValue, ..s }, text) || run(
            ScanView { lex: Lex::BeginValue, ..s },
            text,
        ) is None,
{
    reveal(stepped);
}

/// An array or an object up to its closing byte, and that byte.
proof fn lemma_inside(s: ScanView, j: Json)
    requires
        is_json(j),
        !is_scalar(j),
        s.lex == Lex::BeginValue,
    ensures
        ({
            let text = json_text(j);
            &&& run(s, text.drop_last()) matches Some(t)
            &&& (stepped(t, text.last()).1 == ScanState::EndArray || stepped(t, text.last()).1
                == ScanState::EndObject)
            &&& stepped(t, text.last()).0.stack == s.stack
            &&& stepped(t, text.last()).0.err == s.err
            &&& s.stack.len() > 0 ==> stepped(t, text.last()).0.lex == Lex::EndValue
        }),
    decreases j, 0nat,
{
    let text = json_text(j);
    let first = text[0];
    let (open, _) = stepped(s, first);
    assert(open.stack.len() == s.stack.len() + 1 && open.stack.drop_last() =~= s.stack && open.err
        == s.err && open.lex == (if first == 0x5b {
        Lex::BeginValueOrEmpty
    } else {
        Lex::BeginStringOrEmpty
    }) && open.stack.last() == (if first == 0x5b {
        Nest::ArrayValue
    } else {
        Nest::ObjectKey
    })) by {
        reveal(stepped);
    }
    lemma_run_byte(s, first);
    assert(run(s, seq![first]) == Some(open)) by {
        reveal(stepped);
    }
    match j {
        Json::EmptyArray(w) => {
            assert(text.drop_last() =~= seq![first] + w);
            lemma_run_on(s, seq![first], w);
            lemma_gap_in_front(open, w);
            reveal(stepped);
        },
        Json::EmptyObject(w) => {
            assert(text.drop_last() =~= seq![first] + w);
            lemma_run_on(s, seq![first], w);
            lemma_gap_in_front(open, w);
            reveal(stepped);
            assert(open.stack.drop_last().push(Nest::ObjectValue).drop_last() =~= s.stack);
        },
        Json::Array(items) => {
            assert(text.drop_last() =~= seq![first] + items_text(*items));
            lemma_run_on(s, seq![first], items_text(*items));
            lemma_items(open, *items);
            lemma_behind(run(open, items_text(*items))->0, 0x5d);
        },
        Json::Object(members) => {
            assert(text.drop_last() =~= seq![first] + members_text(*members));
            lemma_run_on(s, seq![first], members_text(*members));
            lemma_members(open, *members);
            lemma_behind(run(open, members_text(*members))->0, 0x7d);
            assert(open.stack.drop_last().push(Nest::ObjectValue).drop_last() =~= s.stack);
        },
        _ => {},
    }
}

/// A value within an array or an object.
proof fn lemma_within(s: ScanView, j: Json)
    requires
        is_json(j),
        s.lex == Lex::BeginValue,
        s.stack.len() > 0,
    ensures
        run(s, json_text(j)) matches Some(t) && is_behind(t.lex) && t.stack == s.stack && t.err
            == s.err,
    decreases j, 1nat,
{
    if is_scalar(j) {
        lemma_scalar(s, j);
    } else {
        let text = json_text(j);
        lemma_inside(s, j);
        let t = run(s, text.drop_last())->0;
        assert(text =~= text.drop_last() + seq![text.last()]);
        lemma_run_on(s, text.drop_last(), seq![text.last()]);
        lemma_run_byte(t, text.last());
    }
}

/// One value of an array with the white space around it.
proof fn lemma_item(s: ScanView, before: Seq<u8>, value: Json, after: Seq<u8>)
    requires
        is_gap(before),
        is_json(value),
        is_gap(after),
        s.lex == Lex::BeginValue || s.lex == Lex::BeginValueOrEmpty,
        s.stack.len() > 0,
    ensures
        run(s, before + json_text(value) + after) matches Some(t) && is_behind(t.lex) && t.stack
            == s.stack && t.err == s.err,
    decreases value, 2nat,
{
    let text = json_text(value);
    let plain = ScanView { lex: Lex::BeginValue, ..s };
    lemma_gap_in_front(s, before);
    lemma_run_on(s, before, text);
    lemma_first_byte(value);
    lemma_within(plain, value);
    if s.lex == Lex::BeginValueOrEmpty {
        lemma_first_item(s, text);
    } else {
        assert(plain == s);
    }
    lemma_run_on(s, before + text, after);
    lemma_gap_behind(run(s, text)->0, after);
}

proof fn lemma_items(s: ScanView, items: Items)
    requires
        are_items(items),
        s.lex == Lex::BeginValue || s.lex == Lex::BeginValueOrEmpty,
        s.stack.len() > 0,
        s.stack.last() == Nest::ArrayValue,
    ensures
        run(s, items_text(items)) matches Some(t) && is_behind(t.lex) && t.stack == s.stack && t.err
            == s.err,
    decreases items, 3nat,
{
    match items {
        Items::Last(before, value, after) => lemma_item(s, before, value, after),
        Items::More(before, value, after, rest) => {
            let a = before + json_text(value) + after;
            lemma_item(s, before, value, after);
            let t = run(s, a)->0;
            lemma_behind(t, 0x2c);
            lemma_run_byte(t, 0x2c);
            lemma_run_on(s, a, seq![0x2cu8]);
            let next = stepped(t, 0x2c).0;
            lemma_items(next, *rest);
            lemma_run_on(s, a + seq![0x2cu8], items_text(*rest));
        },
    }
}

/// A key and the colon behind it.
proof fn lemma_key_and_colon(s: ScanView, key: (Seq<u8>, Seq<Letter>, Seq<u8>))
    requires
        is_named_by(key),
        s.lex == Lex::BeginString || s.lex == Lex::BeginStringOrEmpty,
        s.stack.len() > 0,
        s.stack.last() == Nest::ObjectKey,
    ensures
        run(s, key_text(key)) == Some(
            ScanView {
                lex: Lex::BeginValue,
                stack: s.stack.drop_last().push(Nest::ObjectValue),
                ..s
            },
        ),
{
    let text = string_text(key.1);
    lemma_gap_in_front(s, key.0);
    lemma_run_on(s, key.0, text);
    lemma_string(s, key.1);
    let t = run(s, text)->0;
    lemma_run_on(s, key.0 + text, key.2);
    lemma_gap_behind(t, key.2);
    let u = run(t, key.2)->0;
    lemma_behind(u, 0x3a);
    lemma_run_byte(u, 0x3a);
    lemma_run_on(s, key.0 + text + key.2, seq![0x3au8]);
}

/// One key of an object and its value.
proof fn lemma_member(
    s: ScanView,
    key: (Seq<u8>, Seq<Letter>, Seq<u8>),
    before: Seq<u8>,
    value: Json,
    after: Seq<u8>,
)
    requires
        is_named_by(key),
        is_gap(before),
        is_json(value),
        is_gap(after),
        s.lex == Lex::BeginString || s.lex == Lex::BeginStringOrEmpty,
        s.stack.len() > 0,
        s.stack.last() == Nest::ObjectKey,
    ensures
        run(s, key_text(key) + before + json_text(value) + after) matches Some(t) && is_behind(
            t.lex,
        ) && t.stack == s.stack.drop_last().push(Nest::ObjectValue) && t.err == s.err,
    decreases value, 3nat,
{
    lemma_key_and_colon(s, key);
    let t = run(s, key_text(key))->0;
    let rest = before + json_text(value) + after;
    lemma_item(t, before, value, after);
    lemma_run_on(s, key_text(key), rest);
    assert(key_text(key) + before + json_text(value) + after =~= key_text(key) + rest);
}

proof fn lemma_members(s: ScanView, members: Members)
    requires
        are_members(members),
        s.lex == Lex::BeginString || s.lex == Lex::BeginStringOrEmpty,
        s.stack.len() > 0,
        s.stack.last() == Nest::ObjectKey,
    ensures
        run(s, members_text(members)) matches Some(t) && is_behind(t.lex) && t.stack
            == s.stack.drop_last().push(Nest::ObjectValue) && t.err == s.err,
    decreases members, 4nat,
{
    match members {
        Members::Last(key, before, value, after) => lemma_member(s, key, before, value, after),
        Members::More(key, before, value, after, rest) => {
            let a = key_text(key) + before + json_text(value) + after;
            lemma_member(s, key, before, value, after);
            let t = run(s, a)->0;
            lemma_behind(t, 0x2c);
            lemma_run_byte(t, 0x2c);
            lemma_run_on(s, a, seq![0x2cu8]);
            let next = stepped(t, 0x2c).0;
            assert(next.stack =~= s.stack);
            lemma_members(next, *rest);
            lemma_run_on(s, a + seq![0x2cu8], members_text(*rest));
        },
    }
}

/// Every JSON text is read as one value, from its first byte to its last.
pub proof fn a_json_text_is_one_value(j: Json)
    requires
        is_json(j),
    ensures
        is_json_value(json_text(j)),
{
    let text = json_text(j);
    lemma_first_byte(j);
    if is_scalar(j) {
        lemma_scalar(at_start(), j);
        let t = run(at_start(), text)->0;
        assert(text.subrange(0, text.len() as int) =~= text);
        lemma_run_extent(at_start(), text, text, 0);
        assert(extent(text) == Extent::Open(t));
        lemma_behind(t, 0x20);
    } else {
        lemma_inside(at_start(), j);
        let front = text.drop_last();
        let t = run(at_start(), front)->0;
        assert(text.subrange(0, front.len() as int) =~= front);
        lemma_run_extent(at_start(), front, text, 0);
        assert(extent(text) == extent_from(t, text, text.len() - 1));
        assert(extent(text) == Extent::Whole(text.len() as int));
    }
}

/// Where a value or a key is due nothing else is taken, and neither is anything
/// behind one but what goes on from there. So no text goes through that leaves
/// out a comma or a colon, or has one too many.
pub proof fn what_is_out_of_place_is_refused(s: ScanView, c: u8)
    requires
        !(c == 0x20 || c == 0x09 || c == 0x0a || c == 0x0d),
        s.lex == Lex::EndValue || s.lex == Lex::BeginStringOrEmpty ==> s.stack.len() > 0,
    ensures
        s.lex == Lex::BeginValue ==> (stepped(s, c).1 == ScanState::Error <==> !(c == 0x7b || c
            == 0x5b || c == 0x22 || c == 0x2d || 0x30 <= c <= 0x39 || c == 0x74 || c == 0x66 || c
            == 0x6e)),
        s.lex == Lex::BeginString ==> (stepped(s, c).1 == ScanState::Error <==> c != 0x22),
        s.lex == Lex::BeginStringOrEmpty ==> (stepped(s, c).1 == ScanState::Error <==> c != 0x22
            && c != 0x7d),
        s.lex == Lex::EndValue && s.stack.last() == Nest::ObjectKey ==> (stepped(s, c).1
            == ScanState::Error <==> c != 0x3a),
        s.lex == Lex::EndValue && s.stack.last() == Nest::ObjectValue ==> (stepped(s, c).1
            == ScanState::Error <==> c != 0x2c && c != 0x7d),
        s.lex == Lex::EndValue && s.stack.last() == Nest::ArrayValue ==> (stepped(s, c).1
            == ScanState::Error <==> c != 0x2c && c != 0x5d),
        s.lex == Lex::Failed ==> stepped(s, c).1 == ScanState::Error,
{
    reveal(stepped);
}

/// A string holds no control character, and a backslash in it is followed by
/// what it may escape. A `u` behind one is followed by four hexadecimal digits.
pub proof fn a_string_holds_no_control_character(s: ScanView, c: u8)
    ensures
        s.lex == Lex::InString ==> (stepped(s, c).1 == ScanState::Error <==> c < 0x20),
        s.lex == Lex::InString && c == 0x22 ==> is_behind_string(stepped(s, c).0, s),
        s.lex == Lex::InStringEsc ==> (stepped(s, c).1 == ScanState::Error <==> !(c == 0x22 || c
            == 0x5c || c == 0x2f || c == 0x62 || c == 0x66 || c == 0x6e || c == 0x72 || c == 0x74
            || c == 0x75)),
        s.lex == Lex::InStringEscU || s.lex == Lex::InStringEscU1 || s.lex == Lex::InStringEscU12
            || s.lex == Lex::InStringEscU123 ==> (stepped(s, c).1 == ScanState::Error
            <==> !is_hex(c)),
{
    reveal(stepped);
}

/// The string is over, and what encloses it is as it was.
pub open spec fn is_behind_string(t: ScanView, s: ScanView) -> bool {
    t.lex == Lex::EndValue && t.stack == s.stack && t.err == s.err
}

/// A number has a digit wherever one is due: behind a sign, a point and an
/// exponent's mark. Behind a leading zero there is none, and no number has two
/// points.
pub proof fn a_number_has_a_digit_where_one_is_due(s: ScanView, c: u8)
    ensures
        s.lex == Lex::Neg || s.lex == Lex::Dot || s.lex == Lex::ExpSign ==> (stepped(s, c).1
            == ScanState::Error <==> !(0x30 <= c <= 0x39)),
        s.lex == Lex::Exp ==> (stepped(s, c).1 == ScanState::Error <==> !(0x30 <= c <= 0x39 || c
            == 0x2b || c == 0x2d)),
        s.lex == Lex::Zero && 0x30 <= c <= 0x39 ==> stepped(s, c).1 == ScanState::Error
            || stepped(s, c).1 == ScanState::End,
        s.lex == Lex::DotDigits && c == 0x2e ==> stepped(s, c).1 == ScanState::Error || stepped(
            s,
            c,
        ).1 == ScanState::End,
        s.lex == Lex::ExpDigits && (c == 0x2e || c == 0x65 || c == 0x45) ==> stepped(s, c).1
            == ScanState::Error || stepped(s, c).1 == ScanState::End,
{
    reveal(stepped);
}

/// Three words are values, and each has to be written out.
pub proof fn a_word_is_written_out(s: ScanView, c: u8)
    ensures
        s.lex == Lex::T ==> (stepped(s, c).1 == ScanState::Error <==> c != 0x72),
        s.lex == Lex::Tr ==> (stepped(s, c).1 == ScanState::Error <==> c != 0x75),
        s.lex == Lex::Tru ==> (stepped(s, c).1 == ScanState::Error <==> c != 0x65),
        s.lex == Lex::F ==> (stepped(s, c).1 == ScanState::Error <==> c != 0x61),
        s.lex == Lex::Fa ==> (stepped(s, c).1 == ScanState::Error <==> c != 0x6c),
        s.lex == Lex::Fal ==> (stepped(s, c).1 == ScanState::Error <==> c != 0x73),
        s.lex == Lex::Fals ==> (stepped(s, c).1 == ScanState::Error <==> c != 0x65),
        s.lex == Lex::N ==> (stepped(s, c).1 == ScanState::Error <==> c != 0x75),
        s.lex == Lex::Nu ==> (stepped(s, c).1 == ScanState::Error <==> c != 0x6c),
        s.lex == Lex::Nul ==> (stepped(s, c).1 == ScanState::Error <==> c != 0x6c),
{
    reveal(stepped);
}

/// A refusal names the byte that is out of place, and is kept: whatever comes
/// behind it is refused for the same.
pub proof fn a_refusal_stands(s: ScanView, c: u8, d: u8)
    requires
        stepped(s, c).1 == ScanState::Error,
        s.lex != Lex::Failed,
    ensures
        stepped(s, c).0.err is Some,
        stepped(stepped(s, c).0, d) == (stepped(s, c).0, ScanState::Error),
{
    reveal(stepped);
}

} // verus!
