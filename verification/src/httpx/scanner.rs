//! Where a JSON value ends, found byte by byte.
//!
//! The scanner is told one byte at a time and says what the byte did. It holds
//! no bytes itself, so a value can be followed across any split of the input.
use vstd::prelude::*;
use vstd::string::*;
use crate::text::owned;

verus! {

/// What a byte did.
#[derive(Debug, Clone, Copy, PartialEq, Eq, Structural)]
pub enum ScanState {
    /// Nothing of note.
    Continue,
    BeginLiteral,
    BeginObject,
    /// The colon behind an object's key.
    ObjectKey,
    /// The comma behind an object's value.
    ObjectValue,
    EndObject,
    BeginArray,
    /// The comma behind an array's value.
    ArrayValue,
    EndArray,
    SkipSpace,
    /// The value ended before this byte.
    End,
    Error,
}

/// What the next byte is looked at as.
#[derive(Debug, Clone, Copy, PartialEq, Eq, Structural)]
pub enum Lex {
    BeginValueOrEmpty,
    BeginValue,
    BeginStringOrEmpty,
    BeginString,
    EndValue,
    EndTop,
    InString,
    InStringEsc,
    InStringEscU,
    InStringEscU1,
    InStringEscU12,
    InStringEscU123,
    Neg,
    Zero,
    Digits,
    Dot,
    DotDigits,
    Exp,
    ExpSign,
    ExpDigits,
    T,
    Tr,
    Tru,
    F,
    Fa,
    Fal,
    Fals,
    N,
    Nu,
    Nul,
    Failed,
}

/// What encloses the place that the scanner is at.
#[derive(Debug, Clone, Copy, PartialEq, Eq, Structural)]
pub enum Nest {
    /// The key of an object.
    ObjectKey,
    /// The value that belongs to a key.
    ObjectValue,
    /// A value of an array.
    ArrayValue,
}

/// White space between JSON's tokens.
pub open spec fn is_json_space(c: u8) -> bool {
    c == 0x20 || c == 0x09 || c == 0x0d || c == 0x0a
}

pub open spec fn is_json_digit(c: u8) -> bool {
    0x30 <= c <= 0x39
}

pub open spec fn is_hex_digit(c: u8) -> bool {
    0x30 <= c <= 0x39 || 0x61 <= c <= 0x66 || 0x41 <= c <= 0x46
}

/// Characters that may stand behind a backslash, the `u` aside.
pub open spec fn is_short_escape(c: u8) -> bool {
    c == 0x62 || c == 0x66 || c == 0x6e || c == 0x72 || c == 0x74 || c == 0x5c || c == 0x2f || c
        == 0x22
}

pub open spec fn hex_digit_char(n: u8) -> char {
    if n < 10 {
        ((48 + n) as u8) as char
    } else {
        ((87 + n) as u8) as char
    }
}

/// How a byte reads in an error: in single quotes, as itself where it is a
/// printable ASCII character, else escaped.
pub open spec fn quoted(c: u8) -> Seq<char> {
    if c == 0x27 {
        "'\\''"@
    } else if c == 0x5c {
        "'\\\\'"@
    } else if c == 0x0a {
        "'\\n'"@
    } else if c == 0x0d {
        "'\\r'"@
    } else if c == 0x09 {
        "'\\t'"@
    } else if 0x20 <= c < 0x7f {
        seq!['\'', c as char, '\'']
    } else {
        "'\\x"@ + seq![hex_digit_char(c / 16), hex_digit_char(c % 16), '\'']
    }
}

/// Why a byte is refused.
pub open spec fn refusal(c: u8, context: Seq<char>) -> Seq<char> {
    "invalid character "@ + quoted(c) + context
}

/// The scanner's state, apart from how it is stored.
pub struct ScanView {
    pub lex: Lex,
    pub stack: Seq<Nest>,
    pub err: Option<Seq<char>>,
}

/// The state in front of a value.
pub open spec fn at_start() -> ScanView {
    ScanView { lex: Lex::BeginValue, stack: Seq::empty(), err: None }
}

pub open spec fn failing(s: ScanView, c: u8, context: Seq<char>) -> (ScanView, ScanState) {
    (ScanView { lex: Lex::Failed, err: Some(refusal(c, context)), ..s }, ScanState::Error)
}

pub open spec fn going(s: ScanView, lex: Lex, code: ScanState) -> (ScanView, ScanState) {
    (ScanView { lex, ..s }, code)
}

pub open spec fn entering(s: ScanView, lex: Lex, nest: Nest, code: ScanState) -> (
    ScanView,
    ScanState,
) {
    (ScanView { lex, stack: s.stack.push(nest), ..s }, code)
}

/// Leaving what encloses: at the top the value is over.
pub open spec fn leaving(s: ScanView, code: ScanState) -> (ScanView, ScanState) {
    let stack = s.stack.drop_last();
    (
        ScanView {
            lex: if stack.len() == 0 {
                Lex::EndTop
            } else {
                Lex::EndValue
            },
            stack,
            ..s
        },
        code,
    )
}

/// A byte where a value begins.
pub open spec fn begin_value(s: ScanView, c: u8) -> (ScanView, ScanState) {
    if is_json_space(c) {
        (s, ScanState::SkipSpace)
    } else if c == 0x7b {
        entering(s, Lex::BeginStringOrEmpty, Nest::ObjectKey, ScanState::BeginObject)
    } else if c == 0x5b {
        entering(s, Lex::BeginValueOrEmpty, Nest::ArrayValue, ScanState::BeginArray)
    } else if c == 0x22 {
        going(s, Lex::InString, ScanState::BeginLiteral)
    } else if c == 0x2d {
        going(s, Lex::Neg, ScanState::BeginLiteral)
    } else if c == 0x30 {
        going(s, Lex::Zero, ScanState::BeginLiteral)
    } else if is_json_digit(c) {
        going(s, Lex::Digits, ScanState::BeginLiteral)
    } else if c == 0x74 {
        going(s, Lex::T, ScanState::BeginLiteral)
    } else if c == 0x66 {
        going(s, Lex::F, ScanState::BeginLiteral)
    } else if c == 0x6e {
        going(s, Lex::N, ScanState::BeginLiteral)
    } else {
        failing(s, c, " looking for beginning of value"@)
    }
}

/// A byte where an object's key begins.
pub open spec fn begin_string(s: ScanView, c: u8) -> (ScanView, ScanState) {
    if is_json_space(c) {
        (s, ScanState::SkipSpace)
    } else if c == 0x22 {
        going(s, Lex::InString, ScanState::BeginLiteral)
    } else {
        failing(s, c, " looking for beginning of object key string"@)
    }
}

/// A byte behind the top value: the value ended before it.
pub open spec fn end_top(s: ScanView, c: u8) -> (ScanView, ScanState) {
    if is_json_space(c) {
        (s, ScanState::End)
    } else {
        (failing(s, c, " after top-level value"@).0, ScanState::End)
    }
}

/// A byte behind a value.
pub open spec fn end_value(s: ScanView, c: u8) -> (ScanView, ScanState) {
    if s.stack.len() == 0 {
        end_top(ScanView { lex: Lex::EndTop, ..s }, c)
    } else if is_json_space(c) {
        going(s, Lex::EndValue, ScanState::SkipSpace)
    } else {
        match s.stack.last() {
            Nest::ObjectKey => if c == 0x3a {
                (
                    ScanView {
                        lex: Lex::BeginValue,
                        stack: s.stack.drop_last().push(Nest::ObjectValue),
                        ..s
                    },
                    ScanState::ObjectKey,
                )
            } else {
                failing(s, c, " after object key"@)
            },
            Nest::ObjectValue => if c == 0x2c {
                (
                    ScanView {
                        lex: Lex::BeginString,
                        stack: s.stack.drop_last().push(Nest::ObjectKey),
                        ..s
                    },
                    ScanState::ObjectValue,
                )
            } else if c == 0x7d {
                leaving(s, ScanState::EndObject)
            } else {
                failing(s, c, " after object key:value pair"@)
            },
            Nest::ArrayValue => if c == 0x2c {
                going(s, Lex::BeginValue, ScanState::ArrayValue)
            } else if c == 0x5d {
                leaving(s, ScanState::EndArray)
            } else {
                failing(s, c, " after array element"@)
            },
        }
    }
}

/// A byte of a word of which the next letter is fixed.
pub open spec fn in_word(s: ScanView, c: u8, want: u8, lex: Lex, context: Seq<char>) -> (
    ScanView,
    ScanState,
) {
    if c == want {
        going(s, lex, ScanState::Continue)
    } else {
        failing(s, c, context)
    }
}

/// A byte behind a number's leading zero, or behind its digits.
pub open spec fn behind_integer(s: ScanView, c: u8) -> (ScanView, ScanState) {
    if c == 0x2e {
        going(s, Lex::Dot, ScanState::Continue)
    } else if c == 0x65 || c == 0x45 {
        going(s, Lex::Exp, ScanState::Continue)
    } else {
        end_value(s, c)
    }
}

pub open spec fn digit_or(s: ScanView, c: u8, lex: Lex, context: Seq<char>) -> (
    ScanView,
    ScanState,
) {
    if is_json_digit(c) {
        going(s, lex, ScanState::Continue)
    } else {
        failing(s, c, context)
    }
}

pub open spec fn hex_or_fail(s: ScanView, c: u8, lex: Lex) -> (ScanView, ScanState) {
    if is_hex_digit(c) {
        going(s, lex, ScanState::Continue)
    } else {
        failing(s, c, " in \\u hexadecimal character escape"@)
    }
}

/// What a byte does.
#[verifier::opaque]
pub open spec fn stepped(s: ScanView, c: u8) -> (ScanView, ScanState) {
    match s.lex {
        Lex::BeginValueOrEmpty => if c == 0x5d {
            end_value(s, c)
        } else {
            begin_value(s, c)
        },
        Lex::BeginValue => begin_value(s, c),
        Lex::BeginStringOrEmpty => if c == 0x7d && s.stack.len() > 0 {
            end_value(
                ScanView { stack: s.stack.drop_last().push(Nest::ObjectValue), ..s },
                c,
            )
        } else {
            begin_string(s, c)
        },
        Lex::BeginString => begin_string(s, c),
        Lex::EndValue => end_value(s, c),
        Lex::EndTop => end_top(s, c),
        Lex::InString => if c == 0x22 {
            going(s, Lex::EndValue, ScanState::Continue)
        } else if c == 0x5c {
            going(s, Lex::InStringEsc, ScanState::Continue)
        } else if c < 0x20 {
            failing(s, c, " in string literal"@)
        } else {
            (s, ScanState::Continue)
        },
        Lex::InStringEsc => if is_short_escape(c) {
            going(s, Lex::InString, ScanState::Continue)
        } else if c == 0x75 {
            going(s, Lex::InStringEscU, ScanState::Continue)
        } else {
            failing(s, c, " in string escape code"@)
        },
        Lex::InStringEscU => hex_or_fail(s, c, Lex::InStringEscU1),
        Lex::InStringEscU1 => hex_or_fail(s, c, Lex::InStringEscU12),
        Lex::InStringEscU12 => hex_or_fail(s, c, Lex::InStringEscU123),
        Lex::InStringEscU123 => hex_or_fail(s, c, Lex::InString),
        Lex::Neg => if c == 0x30 {
            going(s, Lex::Zero, ScanState::Continue)
        } else {
            digit_or(s, c, Lex::Digits, " in numeric literal"@)
        },
        Lex::Zero => behind_integer(s, c),
        Lex::Digits => if is_json_digit(c) {
            (s, ScanState::Continue)
        } else {
            behind_integer(s, c)
        },
        Lex::Dot => digit_or(
            s,
            c,
            Lex::DotDigits,
            " after decimal point in numeric literal"@,
        ),
        Lex::DotDigits => if is_json_digit(c) {
            (s, ScanState::Continue)
        } else if c == 0x65 || c == 0x45 {
            going(s, Lex::Exp, ScanState::Continue)
        } else {
            end_value(s, c)
        },
        Lex::Exp => if c == 0x2b || c == 0x2d {
            going(s, Lex::ExpSign, ScanState::Continue)
        } else {
            digit_or(s, c, Lex::ExpDigits, " in exponent of numeric literal"@)
        },
        Lex::ExpSign => digit_or(s, c, Lex::ExpDigits, " in exponent of numeric literal"@),
        Lex::ExpDigits => if is_json_digit(c) {
            (s, ScanState::Continue)
        } else {
            end_value(s, c)
        },
        Lex::T => in_word(s, c, 0x72, Lex::Tr, " in literal true (expecting 'r')"@),
        Lex::Tr => in_word(s, c, 0x75, Lex::Tru, " in literal true (expecting 'u')"@),
        Lex::Tru => in_word(s, c, 0x65, Lex::EndValue, " in literal true (expecting 'e')"@),
        Lex::F => in_word(s, c, 0x61, Lex::Fa, " in literal false (expecting 'a')"@),
        Lex::Fa => in_word(s, c, 0x6c, Lex::Fal, " in literal false (expecting 'l')"@),
        Lex::Fal => in_word(s, c, 0x73, Lex::Fals, " in literal false (expecting 's')"@),
        Lex::Fals => in_word(s, c, 0x65, Lex::EndValue, " in literal false (expecting 'e')"@),
        Lex::N => in_word(s, c, 0x75, Lex::Nu, " in literal null (expecting 'u')"@),
        Lex::Nu => in_word(s, c, 0x6c, Lex::Nul, " in literal null (expecting 'l')"@),
        Lex::Nul => in_word(s, c, 0x6c, Lex::EndValue, " in literal null (expecting 'l')"@),
        Lex::Failed => (s, ScanState::Error),
    }
}

pub struct Scanner {
    lex: Lex,
    stack: Vec<Nest>,
    err: Option<String>,
}

impl View for Scanner {
    type V = ScanView;

    closed spec fn view(&self) -> ScanView {
        ScanView {
            lex: self.lex,
            stack: self.stack@,
            err: match self.err {
                Some(e) => Some(e@),
                None => None,
            },
        }
    }
}

impl Scanner {
    /// A scanner in front of a value.
    pub fn new() -> (r: Scanner)
        ensures
            r@ == at_start(),
    {
        Scanner { lex: Lex::BeginValue, stack: Vec::new(), err: None }
    }

    /// Puts the scanner in front of a value again.
    pub fn reset(&mut self)
        ensures
            final(self)@ == at_start(),
    {
        self.lex = Lex::BeginValue;
        self.stack = Vec::new();
        self.err = None;
        assert(self@.stack =~= at_start().stack);
    }

    /// Why a byte was refused, where one was.
    pub fn err(&self) -> (r: Option<&String>)
        ensures
            r is Some <==> self@.err is Some,
            r is Some ==> r->0@ == self@.err->0,
    {
        self.err.as_ref()
    }

    /// How a byte reads in an error.
    pub fn quote_char(c: u8) -> (r: String)
        ensures
            r@ == quoted(c),
    {
        if c == 0x27 {
            owned("'\\''")
        } else if c == 0x5c {
            owned("'\\\\'")
        } else if c == 0x0a {
            owned("'\\n'")
        } else if c == 0x0d {
            owned("'\\r'")
        } else if c == 0x09 {
            owned("'\\t'")
        } else if 0x20 <= c && c < 0x7f {
            let mut r: String = String::new();
            r.push('\'');
            r.push(c as char);
            r.push('\'');
            assert(r@ =~= quoted(c));
            r
        } else {
            let mut r: String = owned("'\\x");
            r.push(hex_digit_of(c / 16));
            r.push(hex_digit_of(c % 16));
            r.push('\'');
            assert(r@ =~= quoted(c));
            r
        }
    }

    fn fail(&mut self, c: u8, context: &str) -> (r: ScanState)
        ensures
            (final(self)@, r) == failing(old(self)@, c, context@),
    {
        let mut text: String = owned("invalid character ");
        text.append(Scanner::quote_char(c).as_str());
        text.append(context);
        self.lex = Lex::Failed;
        self.err = Some(text);
        ScanState::Error
    }

    fn go(&mut self, lex: Lex, code: ScanState) -> (r: ScanState)
        ensures
            (final(self)@, r) == going(old(self)@, lex, code),
    {
        self.lex = lex;
        code
    }

    fn enter(&mut self, lex: Lex, nest: Nest, code: ScanState) -> (r: ScanState)
        ensures
            (final(self)@, r) == entering(old(self)@, lex, nest, code),
    {
        self.lex = lex;
        self.stack.push(nest);
        code
    }

    fn leave(&mut self, code: ScanState) -> (r: ScanState)
        requires
            old(self)@.stack.len() > 0,
        ensures
            (final(self)@, r) == leaving(old(self)@, code),
    {
        let _ = self.stack.pop();
        self.lex = if self.stack.len() == 0 {
            Lex::EndTop
        } else {
            Lex::EndValue
        };
        assert(self@.stack =~= old(self)@.stack.drop_last());
        code
    }

    fn replace_top(&mut self, nest: Nest)
        requires
            old(self)@.stack.len() > 0,
        ensures
            final(self)@ == (ScanView {
                stack: old(self)@.stack.drop_last().push(nest),
                ..old(self)@
            }),
    {
        let _ = self.stack.pop();
        self.stack.push(nest);
        assert(self@.stack =~= old(self)@.stack.drop_last().push(nest));
    }

    fn begin_value(&mut self, c: u8) -> (r: ScanState)
        ensures
            (final(self)@, r) == begin_value(old(self)@, c),
    {
        if json_space(c) {
            ScanState::SkipSpace
        } else if c == 0x7b {
            self.enter(Lex::BeginStringOrEmpty, Nest::ObjectKey, ScanState::BeginObject)
        } else if c == 0x5b {
            self.enter(Lex::BeginValueOrEmpty, Nest::ArrayValue, ScanState::BeginArray)
        } else if c == 0x22 {
            self.go(Lex::InString, ScanState::BeginLiteral)
        } else if c == 0x2d {
            self.go(Lex::Neg, ScanState::BeginLiteral)
        } else if c == 0x30 {
            self.go(Lex::Zero, ScanState::BeginLiteral)
        } else if json_digit(c) {
            self.go(Lex::Digits, ScanState::BeginLiteral)
        } else if c == 0x74 {
            self.go(Lex::T, ScanState::BeginLiteral)
        } else if c == 0x66 {
            self.go(Lex::F, ScanState::BeginLiteral)
        } else if c == 0x6e {
            self.go(Lex::N, ScanState::BeginLiteral)
        } else {
            self.fail(c, " looking for beginning of value")
        }
    }

    fn begin_string(&mut self, c: u8) -> (r: ScanState)
        ensures
            (final(self)@, r) == begin_string(old(self)@, c),
    {
        if json_space(c) {
            ScanState::SkipSpace
        } else if c == 0x22 {
            self.go(Lex::InString, ScanState::BeginLiteral)
        } else {
            self.fail(c, " looking for beginning of object key string")
        }
    }

    fn end_top(&mut self, c: u8) -> (r: ScanState)
        ensures
            (final(self)@, r) == end_top(old(self)@, c),
    {
        if !json_space(c) {
            let _ = self.fail(c, " after top-level value");
        }
        ScanState::End
    }

    fn end_value(&mut self, c: u8) -> (r: ScanState)
        ensures
            (final(self)@, r) == end_value(old(self)@, c),
    {
        let n: usize = self.stack.len();
        if n == 0 {
            self.lex = Lex::EndTop;
            return self.end_top(c);
        }
        if json_space(c) {
            return self.go(Lex::EndValue, ScanState::SkipSpace);
        }
        match self.stack[n - 1] {
            Nest::ObjectKey => {
                if c == 0x3a {
                    self.replace_top(Nest::ObjectValue);
                    self.go(Lex::BeginValue, ScanState::ObjectKey)
                } else {
                    self.fail(c, " after object key")
                }
            },
            Nest::ObjectValue => {
                if c == 0x2c {
                    self.replace_top(Nest::ObjectKey);
                    self.go(Lex::BeginString, ScanState::ObjectValue)
                } else if c == 0x7d {
                    self.leave(ScanState::EndObject)
                } else {
                    self.fail(c, " after object key:value pair")
                }
            },
            Nest::ArrayValue => {
                if c == 0x2c {
                    self.go(Lex::BeginValue, ScanState::ArrayValue)
                } else if c == 0x5d {
                    self.leave(ScanState::EndArray)
                } else {
                    self.fail(c, " after array element")
                }
            },
        }
    }

    fn word(&mut self, c: u8, want: u8, lex: Lex, context: &str) -> (r: ScanState)
        ensures
            (final(self)@, r) == in_word(old(self)@, c, want, lex, context@),
    {
        if c == want {
            self.go(lex, ScanState::Continue)
        } else {
            self.fail(c, context)
        }
    }

    fn behind_integer(&mut self, c: u8) -> (r: ScanState)
        ensures
            (final(self)@, r) == behind_integer(old(self)@, c),
    {
        if c == 0x2e {
            self.go(Lex::Dot, ScanState::Continue)
        } else if c == 0x65 || c == 0x45 {
            self.go(Lex::Exp, ScanState::Continue)
        } else {
            self.end_value(c)
        }
    }

    fn digit(&mut self, c: u8, lex: Lex, context: &str) -> (r: ScanState)
        ensures
            (final(self)@, r) == digit_or(old(self)@, c, lex, context@),
    {
        if json_digit(c) {
            self.go(lex, ScanState::Continue)
        } else {
            self.fail(c, context)
        }
    }

    fn hex(&mut self, c: u8, lex: Lex) -> (r: ScanState)
        ensures
            (final(self)@, r) == hex_or_fail(old(self)@, c, lex),
    {
        if (c >= 0x30 && c <= 0x39) || (c >= 0x61 && c <= 0x66) || (c >= 0x41 && c <= 0x46) {
            self.go(lex, ScanState::Continue)
        } else {
            self.fail(c, " in \\u hexadecimal character escape")
        }
    }

    /// Tells the scanner the next byte.
    pub fn step(&mut self, c: u8) -> (r: ScanState)
        ensures
            (final(self)@, r) == stepped(old(self)@, c),
    {
        proof {
            reveal(stepped);
        }
        match self.lex {
            Lex::BeginValueOrEmpty => {
                if c == 0x5d {
                    self.end_value(c)
                } else {
                    self.begin_value(c)
                }
            },
            Lex::BeginValue => self.begin_value(c),
            Lex::BeginStringOrEmpty => {
                if c == 0x7d && self.stack.len() > 0 {
                    self.replace_top(Nest::ObjectValue);
                    self.end_value(c)
                } else {
                    self.begin_string(c)
                }
            },
            Lex::BeginString => self.begin_string(c),
            Lex::EndValue => self.end_value(c),
            Lex::EndTop => self.end_top(c),
            Lex::InString => {
                if c == 0x22 {
                    self.go(Lex::EndValue, ScanState::Continue)
                } else if c == 0x5c {
                    self.go(Lex::InStringEsc, ScanState::Continue)
                } else if c < 0x20 {
                    self.fail(c, " in string literal")
                } else {
                    ScanState::Continue
                }
            },
            Lex::InStringEsc => {
                if c == 0x62 || c == 0x66 || c == 0x6e || c == 0x72 || c == 0x74 || c == 0x5c || c
                    == 0x2f || c == 0x22 {
                    self.go(Lex::InString, ScanState::Continue)
                } else if c == 0x75 {
                    self.go(Lex::InStringEscU, ScanState::Continue)
                } else {
                    self.fail(c, " in string escape code")
                }
            },
            Lex::InStringEscU => self.hex(c, Lex::InStringEscU1),
            Lex::InStringEscU1 => self.hex(c, Lex::InStringEscU12),
            Lex::InStringEscU12 => self.hex(c, Lex::InStringEscU123),
            Lex::InStringEscU123 => self.hex(c, Lex::InString),
            Lex::Neg => {
                if c == 0x30 {
                    self.go(Lex::Zero, ScanState::Continue)
                } else {
                    self.digit(c, Lex::Digits, " in numeric literal")
                }
            },
            Lex::Zero => self.behind_integer(c),
            Lex::Digits => {
                if json_digit(c) {
                    ScanState::Continue
                } else {
                    self.behind_integer(c)
                }
            },
            Lex::Dot => self.digit(
                c,
                Lex::DotDigits,
                " after decimal point in numeric literal",
            ),
            Lex::DotDigits => {
                if json_digit(c) {
                    ScanState::Continue
                } else if c == 0x65 || c == 0x45 {
                    self.go(Lex::Exp, ScanState::Continue)
                } else {
                    self.end_value(c)
                }
            },
            Lex::Exp => {
                if c == 0x2b || c == 0x2d {
                    self.go(Lex::ExpSign, ScanState::Continue)
                } else {
                    self.digit(c, Lex::ExpDigits, " in exponent of numeric literal")
                }
            },
            Lex::ExpSign => self.digit(c, Lex::ExpDigits, " in exponent of numeric literal"),
            Lex::ExpDigits => {
                if json_digit(c) {
                    ScanState::Continue
                } else {
                    self.end_value(c)
                }
            },
            Lex::T => self.word(c, 0x72, Lex::Tr, " in literal true (expecting 'r')"),
            Lex::Tr => self.word(c, 0x75, Lex::Tru, " in literal true (expecting 'u')"),
            Lex::Tru => self.word(c, 0x65, Lex::EndValue, " in literal true (expecting 'e')"),
            Lex::F => self.word(c, 0x61, Lex::Fa, " in literal false (expecting 'a')"),
            Lex::Fa => self.word(c, 0x6c, Lex::Fal, " in literal false (expecting 'l')"),
            Lex::Fal => self.word(c, 0x73, Lex::Fals, " in literal false (expecting 's')"),
            Lex::Fals => self.word(c, 0x65, Lex::EndValue, " in literal false (expecting 'e')"),
            Lex::N => self.word(c, 0x75, Lex::Nu, " in literal null (expecting 'u')"),
            Lex::Nu => self.word(c, 0x6c, Lex::Nul, " in literal null (expecting 'l')"),
            Lex::Nul => self.word(c, 0x6c, Lex::EndValue, " in literal null (expecting 'l')"),
            Lex::Failed => ScanState::Error,
        }
    }
}

fn hex_digit_of(n: u8) -> (c: char)
    requires
        n < 16,
    ensures
        c == hex_digit_char(n),
{
    if n < 10 {
        (48 + n) as char
    } else {
        (87 + n) as char
    }
}

fn json_space(c: u8) -> (r: bool)
    ensures
        r == is_json_space(c),
{
    c == 0x20 || c == 0x09 || c == 0x0d || c == 0x0a
}

fn json_digit(c: u8) -> (r: bool)
    ensures
        r == is_json_digit(c),
{
    c >= 0x30 && c <= 0x39
}

} // verus!
