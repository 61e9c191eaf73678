//! Strings as sequences of characters: decimal numbers, searching, trimming
//! and joining.
use vstd::prelude::*;
use vstd::string::*;

verus! {

/// Appending one character, `String::push`.
///
/// Believed of it: the string afterwards is the string before with the
/// character behind it.
pub assume_specification[ std::string::String::push ](s: &mut std::string::String, c: char)
    ensures
        final(s)@ == old(s)@.push(c),
;

/// The digit that stands for `n`.
pub open spec fn digit_char(n: nat) -> char {
    ((48 + n) as u8) as char
}

/// How `n` is written in decimal: no leading zero, `0` for zero.
pub open spec fn decimal(n: nat) -> Seq<char>
    decreases n,
{
    if n < 10 {
        seq![digit_char(n)]
    } else {
        decimal(n / 10).push(digit_char(n % 10))
    }
}

/// Whether `c` is one of the ten decimal digits.
pub open spec fn is_digit(c: char) -> bool {
    '0' <= c && c <= '9'
}

/// What the digit `c` is worth.
pub open spec fn digit_worth(c: char) -> nat {
    ((c as u32) - 48) as nat
}

/// The number a run of digits stands for.
pub open spec fn digits_value(s: Seq<char>) -> nat
    decreases s.len(),
{
    if s.len() == 0 {
        0
    } else {
        digits_value(s.drop_last()) * 10 + digit_worth(s.last())
    }
}

pub open spec fn all_digits(s: Seq<char>) -> bool {
    forall|i: int| 0 <= i < s.len() ==> is_digit(#[trigger] s[i])
}

/// The characters behind an optional leading `+`.
pub open spec fn behind_plus(s: Seq<char>) -> Seq<char> {
    if s.len() > 0 && s[0] == '+' {
        s.skip(1)
    } else {
        s
    }
}

/// An unsigned number no larger than `max`, read the way the standard library
/// reads one: an optional `+`, then at least one digit, and nothing else.
pub open spec fn parsed_unsigned(s: Seq<char>, max: nat) -> Option<nat> {
    let digits = behind_plus(s);
    if digits.len() > 0 && all_digits(digits) && digits_value(digits) <= max {
        Some(digits_value(digits))
    } else {
        None
    }
}

/// Whether `needle` stands in `hay` at position `i`.
pub open spec fn occurs_at(hay: Seq<char>, needle: Seq<char>, i: int) -> bool {
    0 <= i && i + needle.len() <= hay.len() && hay.subrange(i, i + needle.len()) == needle
}

/// The first position at or behind `from` where `needle` stands in `hay`.
pub open spec fn first_from(hay: Seq<char>, needle: Seq<char>, from: int) -> Option<int>
    decreases hay.len() - from + 1,
{
    if from + needle.len() > hay.len() {
        None
    } else if occurs_at(hay, needle, from) {
        Some(from)
    } else {
        first_from(hay, needle, from + 1)
    }
}

/// The first position where `needle` stands in `hay`.
pub open spec fn first_position(hay: Seq<char>, needle: Seq<char>) -> Option<int> {
    first_from(hay, needle, 0)
}

/// Whether `needle` stands anywhere in `hay`.
pub open spec fn contains_text(hay: Seq<char>, needle: Seq<char>) -> bool {
    exists|i: int| #[trigger] occurs_at(hay, needle, i)
}

/// The characters of Unicode's White_Space property.
pub open spec fn is_white_space(c: char) -> bool {
    let u = c as u32;
    (0x9 <= u && u <= 0xd) || u == 0x20 || u == 0x85 || u == 0xa0 || u == 0x1680 || (0x2000 <= u
        && u <= 0x200a) || u == 0x2028 || u == 0x2029 || u == 0x202f || u == 0x205f || u == 0x3000
}

/// `s` without the white space at its start.
pub open spec fn trimmed_start(s: Seq<char>) -> Seq<char>
    decreases s.len(),
{
    if s.len() > 0 && is_white_space(s[0]) {
        trimmed_start(s.skip(1))
    } else {
        s
    }
}

/// The digits at the start of `s`, as many as there are.
pub open spec fn leading_digits(s: Seq<char>) -> Seq<char>
    decreases s.len(),
{
    if s.len() > 0 && is_digit(s[0]) {
        seq![s[0]] + leading_digits(s.skip(1))
    } else {
        Seq::empty()
    }
}

/// `parts` written one behind the other with `between` standing between each
/// two.
pub open spec fn joined(parts: Seq<Seq<char>>, between: Seq<char>) -> Seq<char>
    decreases parts.len(),
{
    if parts.len() == 0 {
        Seq::empty()
    } else if parts.len() == 1 {
        parts[0]
    } else {
        joined(parts.drop_last(), between) + between + parts.last()
    }
}

/// A letter of the English alphabet in lower case, any other character as it
/// is.
pub open spec fn ascii_lowered(c: char) -> char {
    if 'A' <= c && c <= 'Z' {
        ((c as u32 + 32) as u8) as char
    } else {
        c
    }
}

/// What `str::to_lowercase` makes of a string.
pub uninterp spec fn lowercased(s: Seq<char>) -> Seq<char>;

/// `str::to_lowercase`, whose result is named `lowercased`.
///
/// Believed of it besides: a string of ASCII characters has its English
/// letters lowered one by one and everything else kept.
#[verifier::external_body]
pub(crate) fn to_lowercase(s: &str) -> (r: String)
    ensures
        r@ == lowercased(s@),
        vstd::utf8::is_ascii_chars(s@) ==> r@ == s@.map_values(|c: char| ascii_lowered(c)),
{
    s.to_lowercase()
}

/// The string of a literal or a borrowed string.
pub fn owned(s: &str) -> (r: String)
    ensures
        r@ == s@,
{
    s.to_owned()
}

/// Whether two strings hold the same characters.
pub fn same_text(a: &str, b: &str) -> (r: bool)
    ensures
        r == (a@ == b@),
{
    let x: Vec<char> = chars_of(a);
    let y: Vec<char> = chars_of(b);
    same_chars(x.as_slice(), y.as_slice())
}

/// An optional string as a text.
pub open spec fn opt_text(s: Option<String>) -> Option<Seq<char>> {
    match s {
        Some(s) => Some(s@),
        None => None,
    }
}

/// Whether both are the same text, or both are absent.
pub fn same_opt_text(a: &Option<String>, b: &Option<String>) -> (r: bool)
    ensures
        r == (opt_text(*a) == opt_text(*b)),
{
    match (a, b) {
        (Some(a), Some(b)) => same_text(a.as_str(), b.as_str()),
        (None, None) => true,
        _ => false,
    }
}

pub fn same_chars(x: &[char], y: &[char]) -> (r: bool)
    ensures
        r == (x@ == y@),
{
    if x.len() != y.len() {
        return false;
    }
    let mut i: usize = 0;
    while i < x.len()
        invariant
            x.len() == y.len(),
            i <= x.len(),
            forall|j: int| 0 <= j < i ==> x@[j] == y@[j],
        decreases x.len() - i,
    {
        if x[i] != y[i] {
            assert(x@ != y@);
            return false;
        }
        i += 1;
    }
    assert(x@ =~= y@);
    true
}

/// The characters of `s` one by one.
pub fn chars_of(s: &str) -> (r: Vec<char>)
    ensures
        r@ == s@,
{
    let mut r: Vec<char> = Vec::new();
    for c in it: s.chars()
        invariant
            it.seq() == s@,
            r@ == s@.take(it.index() as int),
    {
        r.push(c);
        assert(s@.take(it.index() + 1) =~= s@.take(it.index() as int).push(c));
    }
    assert(s@.take(s@.len() as int) =~= s@);
    r
}

/// The string made of `chars`.
pub fn string_of(chars: &[char]) -> (r: String)
    ensures
        r@ == chars@,
{
    let mut r: String = String::new();
    let mut i: usize = 0;
    while i < chars.len()
        invariant
            i <= chars.len(),
            r@ == chars@.take(i as int),
        decreases chars.len() - i,
    {
        r.push(chars[i]);
        assert(chars@.take(i + 1) =~= chars@.take(i as int).push(chars@[i as int]));
        i += 1;
    }
    assert(chars@.take(chars@.len() as int) =~= chars@);
    r
}

fn digit_of(n: u64) -> (c: char)
    requires
        n < 10,
    ensures
        c == digit_char(n as nat),
{
    (48 + n as u8) as char
}

/// Writes `n` in decimal behind what `out` holds.
pub fn push_decimal(out: &mut String, n: u64)
    ensures
        final(out)@ == old(out)@ + decimal(n as nat),
    decreases n,
{
    if n >= 10 {
        push_decimal(out, n / 10);
    }
    out.push(digit_of(n % 10));
    proof {
        if n < 10 {
            assert(old(out)@.push(digit_char(n as nat)) =~= old(out)@ + decimal(n as nat));
        } else {
            assert((old(out)@ + decimal((n / 10) as nat)).push(digit_char((n % 10) as nat))
                =~= old(out)@ + decimal(n as nat));
        }
    }
}

/// `n` in decimal.
pub fn decimal_of(n: u64) -> (r: String)
    ensures
        r@ == decimal(n as nat),
{
    let mut r: String = String::new();
    push_decimal(&mut r, n);
    assert(Seq::<char>::empty() + decimal(n as nat) =~= decimal(n as nat));
    r
}

/// Reads an unsigned number no larger than `max`.
pub fn parse_unsigned(s: &str, max: u64) -> (r: Option<u64>)
    ensures
        r is Some <==> parsed_unsigned(s@, max as nat) is Some,
        r is Some ==> r->0 as nat == parsed_unsigned(s@, max as nat)->0,
{
    let chars: Vec<char> = chars_of(s);
    parse_unsigned_chars(chars.as_slice(), max)
}

pub fn parse_unsigned_chars(chars: &[char], max: u64) -> (r: Option<u64>)
    ensures
        r is Some <==> parsed_unsigned(chars@, max as nat) is Some,
        r is Some ==> r->0 as nat == parsed_unsigned(chars@, max as nat)->0,
{
    let start: usize = if chars.len() > 0 && chars[0] == '+' { 1 } else { 0 };
    let ghost digits = behind_plus(chars@);
    assert(digits =~= chars@.skip(start as int));
    if chars.len() == start {
        return None;
    }
    let mut i: usize = start;
    let mut value: u64 = 0;
    let mut over: bool = false;
    while i < chars.len()
        invariant
            start <= i <= chars.len(),
            digits == behind_plus(chars@),
            digits == chars@.skip(start as int),
            digits.len() == chars.len() - start,
            all_digits(digits.take(i - start)),
            over ==> digits_value(digits.take(i - start)) > max,
            !over ==> value as nat == digits_value(digits.take(i - start)) && value <= max,
        decreases chars.len() - i,
    {
        let c: char = chars[i];
        assert(c == digits[i - start]);
        if !(c >= '0' && c <= '9') {
            assert(!is_digit(digits[i - start]));
            return None;
        }
        let d: u64 = c as u64 - 48;
        proof {
            let k = i - start;
            assert(digits.take(k + 1).drop_last() =~= digits.take(k));
            assert(digits.take(k + 1).last() == c);
            assert(digits_value(digits.take(k + 1)) == digits_value(digits.take(k)) * 10 + d);
            assert forall|j: int| 0 <= j < k + 1 implies is_digit(#[trigger] digits.take(k + 1)[j]) by {
                if j < k {
                    assert(is_digit(digits.take(k)[j]));
                }
            }
        }
        if !over {
            match value.checked_mul(10) {
                Some(tens) => match tens.checked_add(d) {
                    Some(next) => {
                        if next <= max {
                            value = next;
                        } else {
                            over = true;
                        }
                    },
                    None => {
                        over = true;
                    },
                },
                None => {
                    over = true;
                },
            }
        }
        i += 1;
    }
    assert(digits.take(digits.len() as int) =~= digits);
    if over {
        None
    } else {
        Some(value)
    }
}

proof fn lemma_first_from_none(hay: Seq<char>, needle: Seq<char>, from: int)
    requires
        0 <= from,
        first_from(hay, needle, from) is None,
    ensures
        forall|i: int| from <= i ==> !#[trigger] occurs_at(hay, needle, i),
    decreases hay.len() - from + 1,
{
    if from + needle.len() <= hay.len() {
        lemma_first_from_none(hay, needle, from + 1);
    }
}

proof fn lemma_first_from_some(hay: Seq<char>, needle: Seq<char>, from: int)
    requires
        0 <= from,
        first_from(hay, needle, from) is Some,
    ensures
        from <= first_from(hay, needle, from)->0,
        occurs_at(hay, needle, first_from(hay, needle, from)->0),
        forall|i: int| from <= i < first_from(hay, needle, from)->0 ==> !#[trigger] occurs_at(hay, needle, i),
    decreases hay.len() - from + 1,
{
    if !occurs_at(hay, needle, from) {
        lemma_first_from_some(hay, needle, from + 1);
    }
}

/// A text contains another exactly where a first position of it exists, and
/// that position is the smallest there is.
pub proof fn first_position_is_the_first(hay: Seq<char>, needle: Seq<char>)
    ensures
        contains_text(hay, needle) <==> first_position(hay, needle) is Some,
        first_position(hay, needle) is Some ==> {
            let at = first_position(hay, needle)->0;
            occurs_at(hay, needle, at) && forall|i: int| i < at ==> !#[trigger] occurs_at(hay, needle, i)
        },
{
    if first_position(hay, needle) is Some {
        lemma_first_from_some(hay, needle, 0);
    } else {
        lemma_first_from_none(hay, needle, 0);
    }
}

/// Where `needle` first stands in `hay`.
pub fn find(hay: &[char], needle: &[char]) -> (r: Option<usize>)
    ensures
        r is Some <==> first_position(hay@, needle@) is Some,
        r is Some ==> r->0 as int == first_position(hay@, needle@)->0,
        r is Some ==> occurs_at(hay@, needle@, r->0 as int),
{
    if needle.len() > hay.len() {
        return None;
    }
    let last: usize = hay.len() - needle.len();
    let mut i: usize = 0;
    while i <= last
        invariant
            last == hay.len() - needle.len(),
            i <= last + 1,
            first_position(hay@, needle@) == first_from(hay@, needle@, i as int),
        decreases last + 1 - i,
    {
        let mut j: usize = 0;
        while j < needle.len() && hay[i + j] == needle[j]
            invariant
                last == hay.len() - needle.len(),
                i <= last,
                j <= needle.len(),
                forall|k: int| 0 <= k < j ==> hay@[i + k] == needle@[k],
            decreases needle.len() - j,
        {
            j += 1;
        }
        if j == needle.len() {
            assert(hay@.subrange(i as int, i + needle@.len()) =~= needle@);
            return Some(i);
        }
        assert(hay@.subrange(i as int, i + needle@.len())[j as int] != needle@[j as int]);
        assert(!occurs_at(hay@, needle@, i as int));
        if i == last {
            assert(first_from(hay@, needle@, i + 1) is None);
            return None;
        }
        i += 1;
    }
    None
}

/// Whether `needle` stands anywhere in `hay`.
pub fn contains(hay: &str, needle: &str) -> (r: bool)
    ensures
        r == contains_text(hay@, needle@),
{
    let h: Vec<char> = chars_of(hay);
    let n: Vec<char> = chars_of(needle);
    proof {
        first_position_is_the_first(h@, n@);
    }
    find(h.as_slice(), n.as_slice()).is_some()
}

/// Whether `c` is white space.
pub fn white_space(c: char) -> (r: bool)
    ensures
        r == is_white_space(c),
{
    let u: u32 = c as u32;
    (0x9 <= u && u <= 0xd) || u == 0x20 || u == 0x85 || u == 0xa0 || u == 0x1680 || (0x2000 <= u
        && u <= 0x200a) || u == 0x2028 || u == 0x2029 || u == 0x202f || u == 0x205f || u == 0x3000
}

/// Writes `parts` one behind the other with `between` between each two.
pub fn join(parts: &Vec<String>, between: &str) -> (r: String)
    ensures
        r@ == joined(parts@.map_values(|p: String| p@), between@),
{
    let ghost all = parts@.map_values(|p: String| p@);
    let mut r: String = String::new();
    let mut i: usize = 0;
    while i < parts.len()
        invariant
            i <= parts.len(),
            all == parts@.map_values(|p: String| p@),
            r@ == joined(all.take(i as int), between@),
        decreases parts.len() - i,
    {
        if i > 0 {
            r.append(between);
        }
        r.append(parts[i].as_str());
        assert(all.take(i + 1).drop_last() =~= all.take(i as int));
        assert(all.take(i + 1).last() == parts@[i as int]@);
        assert(Seq::<char>::empty() + parts@[i as int]@ =~= parts@[i as int]@);
        i += 1;
    }
    assert(all.take(all.len() as int) =~= all);
    r
}

/// Whether `a` stands before `b` in the order of their characters' code
/// points.
pub open spec fn text_less(a: Seq<char>, b: Seq<char>) -> bool
    decreases a.len(),
{
    if b.len() == 0 {
        false
    } else if a.len() == 0 {
        true
    } else if a[0] != b[0] {
        a[0] < b[0]
    } else {
        text_less(a.skip(1), b.skip(1))
    }
}

/// The order of texts is a strict total order.
pub proof fn text_less_is_total(a: Seq<char>, b: Seq<char>)
    ensures
        !text_less(a, a),
        text_less(a, b) ==> !text_less(b, a),
        a != b ==> text_less(a, b) || text_less(b, a),
    decreases a.len(),
{
    if a.len() > 0 {
        text_less_is_total(a.skip(1), if b.len() > 0 {
            b.skip(1)
        } else {
            b
        });
    }
    if a.len() > 0 && b.len() > 0 && a[0] == b[0] {
        if a.skip(1) == b.skip(1) {
            assert(a =~= seq![a[0]] + a.skip(1));
            assert(b =~= seq![b[0]] + b.skip(1));
        }
    }
    if a.len() == 0 && b.len() == 0 {
        assert(a =~= b);
    }
}

pub proof fn text_less_is_transitive(a: Seq<char>, b: Seq<char>, c: Seq<char>)
    requires
        text_less(a, b),
        text_less(b, c),
    ensures
        text_less(a, c),
    decreases a.len(),
{
    if a.len() > 0 && a[0] == b[0] && b[0] == c[0] {
        text_less_is_transitive(a.skip(1), b.skip(1), c.skip(1));
    }
}

/// Whether `a` stands before `b`.
pub fn less_text(a: &str, b: &str) -> (r: bool)
    ensures
        r == text_less(a@, b@),
{
    let x: Vec<char> = chars_of(a);
    let y: Vec<char> = chars_of(b);
    let mut i: usize = 0;
    assert(x@.skip(0) =~= a@);
    assert(y@.skip(0) =~= b@);
    while i < x.len() && i < y.len() && x[i] == y[i]
        invariant
            i <= x.len(),
            i <= y.len(),
            x@ == a@,
            y@ == b@,
            text_less(a@, b@) == text_less(x@.skip(i as int), y@.skip(i as int)),
        decreases x.len() - i,
    {
        assert(x@.skip(i as int).skip(1) =~= x@.skip(i + 1));
        assert(y@.skip(i as int).skip(1) =~= y@.skip(i + 1));
        i += 1;
    }
    if i == y.len() {
        false
    } else if i == x.len() {
        true
    } else {
        x[i] < y[i]
    }
}

/// A text contains a single character exactly where the character stands in it.
pub proof fn a_character_is_contained_where_it_stands(hay: Seq<char>, needle: Seq<char>)
    requires
        needle.len() == 1,
    ensures
        contains_text(hay, needle) <==> exists|i: int|
            0 <= i < hay.len() && #[trigger] hay[i] == needle[0],
{
    if contains_text(hay, needle) {
        let i = choose|i: int| #[trigger] occurs_at(hay, needle, i);
        assert(hay.subrange(i, i + 1)[0] == hay[i]);
        assert(hay[i] == needle[0]);
    }
    if exists|i: int| 0 <= i < hay.len() && #[trigger] hay[i] == needle[0] {
        let i = choose|i: int| 0 <= i < hay.len() && #[trigger] hay[i] == needle[0];
        assert(hay.subrange(i, i + 1) =~= needle);
        assert(occurs_at(hay, needle, i));
    }
}

/// A number is written in digits alone, without a zero in front but for zero
/// itself, and reads back as the number.
pub proof fn a_written_number_reads_back(n: nat)
    ensures
        decimal(n).len() > 0,
        all_digits(decimal(n)),
        digits_value(decimal(n)) == n,
        decimal(n)[0] == '0' <==> n == 0,
        forall|max: nat| n <= max ==> #[trigger] parsed_unsigned(decimal(n), max) == Some(n),
        forall|max: nat| n > max ==> #[trigger] parsed_unsigned(decimal(n), max) is None,
    decreases n,
{
    reveal_with_fuel(digits_value, 2);
    if n >= 10 {
        a_written_number_reads_back(n / 10);
        let front = decimal(n / 10);
        assert(decimal(n).drop_last() =~= front);
        assert(decimal(n)[0] == front[0]);
        assert forall|i: int| 0 <= i < decimal(n).len() implies is_digit(
            #[trigger] decimal(n)[i],
        ) by {
            if i < front.len() {
                assert(is_digit(front[i]));
            }
        }
    } else {
        assert(decimal(n).drop_last() =~= Seq::<char>::empty());
    }
    assert(is_digit(decimal(n)[0]));
    assert(behind_plus(decimal(n)) == decimal(n));
}

/// What a run of digits is worth: each digit counts ten times what it would in
/// the next place to its right.
pub proof fn a_digit_counts_by_its_place(s: Seq<char>, c: char)
    ensures
        digits_value(Seq::empty()) == 0,
        '0' <= c <= '9' ==> digits_value(s.push(c)) == digits_value(s) * 10 + (c as int - '0' as int),
{
    assert(s.push(c).drop_last() =~= s);
}

proof fn lemma_no_white_space_left(w: Seq<char>, s: Seq<char>)
    requires
        forall|i: int| 0 <= i < w.len() ==> is_white_space(#[trigger] w[i]),
        s.len() > 0,
        !is_white_space(s[0]),
    ensures
        trimmed_start(w + s) == s,
    decreases w.len(),
{
    if w.len() > 0 {
        assert((w + s)[0] == w[0]);
        assert((w + s).skip(1) =~= w.skip(1) + s);
        lemma_no_white_space_left(w.skip(1), s);
    } else {
        assert(w + s =~= s);
    }
}

/// White space in front of a text is left out, and nothing else is: blanks,
/// tabs and line ends among it.
pub proof fn a_text_starts_behind_its_white_space(w: Seq<char>, s: Seq<char>)
    requires
        forall|i: int|
            0 <= i < w.len() ==> #[trigger] w[i] == ' ' || w[i] == '\t' || w[i] == '\n' || w[i]
                == '\r',
        s.len() > 0,
        '!' <= s[0] <= '~',
    ensures
        trimmed_start(w + s) == s,
{
    assert forall|i: int| 0 <= i < w.len() implies is_white_space(#[trigger] w[i]) by {
        assert(w[i] == ' ' || w[i] == '\t' || w[i] == '\n' || w[i] == '\r');
    }
    lemma_no_white_space_left(w, s);
}

/// The digits in front of a text reach up to what is no digit.
pub proof fn leading_digits_reach_up_to_what_is_none(d: Seq<char>, s: Seq<char>)
    requires
        forall|i: int| 0 <= i < d.len() ==> '0' <= #[trigger] d[i] <= '9',
        s.len() == 0 || s[0] < '0' || s[0] > '9',
    ensures
        leading_digits(d + s) == d,
    decreases d.len(),
{
    if d.len() > 0 {
        assert((d + s)[0] == d[0]);
        assert('0' <= d[0] <= '9');
        assert((d + s).skip(1) =~= d.skip(1) + s);
        assert forall|i: int| 0 <= i < d.skip(1).len() implies '0' <= #[trigger] d.skip(1)[i]
            <= '9' by {
            assert(d.skip(1)[i] == d[i + 1]);
        }
        leading_digits_reach_up_to_what_is_none(d.skip(1), s);
        assert(seq![d[0]] + d.skip(1) =~= d);
    } else {
        assert(d + s =~= s);
    }
}

/// Of two texts the one comes first that has the lower character where they
/// part, and the one that the other only goes on from.
pub proof fn texts_are_ordered_where_they_part(front: Seq<char>, a: Seq<char>, b: Seq<char>)
    requires
        a.len() > 0,
        b.len() > 0,
        a[0] < b[0],
    ensures
        text_less(front + a, front + b),
        !text_less(front + b, front + a),
        text_less(front, front + a),
        !text_less(front, front),
    decreases front.len(),
{
    if front.len() > 0 {
        assert((front + a).skip(1) =~= front.skip(1) + a);
        assert((front + b).skip(1) =~= front.skip(1) + b);
        assert((front + a).drop_first() =~= front.skip(1) + a);
        assert((front + b).drop_first() =~= front.skip(1) + b);
        assert(front.drop_first() =~= front.skip(1));
        texts_are_ordered_where_they_part(front.skip(1), a, b);
    } else {
        assert(front + a =~= a);
        assert(front + b =~= b);
    }
}

/// Parts are joined with the text between each two of them, and with none in
/// front of the first or behind the last.
pub proof fn parts_are_joined_in_between(parts: Seq<Seq<char>>, part: Seq<char>, between: Seq<char>)
    ensures
        joined(Seq::<Seq<char>>::empty(), between) == Seq::<char>::empty(),
        parts.len() == 0 ==> joined(parts.push(part), between) == part,
        parts.len() > 0 ==> joined(parts.push(part), between) == joined(parts, between) + between
            + part,
{
    assert(parts.push(part).drop_last() =~= parts);
}

/// A capital letter is lowered to the small letter of the same place in the
/// alphabet, and nothing else changes.
pub proof fn a_capital_is_lowered_to_its_own_letter(c: char)
    ensures
        'A' <= c <= 'Z' ==> 'a' <= ascii_lowered(c) <= 'z' && ascii_lowered(c) as int - 'a' as int
            == c as int - 'A' as int,
        c < 'A' || c > 'Z' ==> ascii_lowered(c) == c,
{
}

/// A number may have one `+` in front of it, which changes nothing. Without a
/// digit there is no number, and neither is there one with anything but digits.
pub proof fn a_number_may_have_a_plus(n: nat, max: nat, s: Seq<char>)
    requires
        n <= max,
    ensures
        parsed_unsigned(seq!['+'] + decimal(n), max) == Some(n),
        parsed_unsigned(Seq::empty(), max) is None,
        parsed_unsigned(seq!['+'], max) is None,
        s.len() > 0 && s[0] == '-' ==> parsed_unsigned(s, max) is None,
        (exists|i: int| 1 <= i < s.len() && !('0' <= #[trigger] s[i] <= '9')) ==> parsed_unsigned(
            s,
            max,
        ) is None,
{
    a_written_number_reads_back(n);
    assert((seq!['+'] + decimal(n)).skip(1) =~= decimal(n));
    assert(seq!['+'].skip(1).len() == 0);
    if s.len() > 0 && s[0] == '-' {
        assert(!is_digit(s[0]));
    }
    if exists|i: int| 1 <= i < s.len() && !('0' <= #[trigger] s[i] <= '9') {
        let i = choose|i: int| 1 <= i < s.len() && !('0' <= #[trigger] s[i] <= '9');
        if s[0] == '+' {
            assert(s.skip(1)[i - 1] == s[i]);
            assert(!is_digit(s.skip(1)[i - 1]));
        } else {
            assert(!is_digit(s[i]));
        }
    }
}

} // verus!
