//! The licence header that a generated file takes over from its schema.
use vstd::prelude::*;
use crate::text::{
    chars_of, find, first_position, first_position_is_the_first, occurs_at, same_chars, string_of,
};

verus! {

/// The comment that a source file opens with: from its `/*` to the first `*/`
/// behind that. `None` where it opens with none, or with one that does not end.
pub open spec fn leading_comment(source: Seq<char>) -> Option<Seq<char>> {
    if source.len() >= 2 && source.take(2) == "/*"@ {
        match first_position(source.skip(2), "*/"@) {
            Some(end) => Some(source.take(end + 4)),
            None => None,
        }
    } else {
        None
    }
}

/// The leading comment of a source file.
pub fn licence_header(source: &str) -> (r: Option<String>)
    ensures
        match leading_comment(source@) {
            Some(header) => r matches Some(text) && text@ == header,
            None => r is None,
        },
{
    let chars: Vec<char> = chars_of(source);
    let opening: Vec<char> = chars_of("/*");
    proof {
        reveal_strlit("/*");
        reveal_strlit("*/");
    }
    if chars.len() < 2 {
        return None;
    }
    assert(chars@.subrange(0, 2) =~= source@.take(2));
    if !same_chars(vstd::slice::slice_subrange(chars.as_slice(), 0, 2), opening.as_slice()) {
        return None;
    }
    let closing: Vec<char> = chars_of("*/");
    let inside: &[char] = vstd::slice::slice_subrange(chars.as_slice(), 2, chars.len());
    assert(inside@ =~= source@.skip(2));
    match find(inside, closing.as_slice()) {
        Some(end) => {
            proof {
                first_position_is_the_first(inside@, closing@);
            }
            assert(chars@.subrange(0, end + 4) =~= source@.take(end + 4));
            Some(string_of(vstd::slice::slice_subrange(chars.as_slice(), 0, end + 4)))
        },
        None => None,
    }
}

/// A file that opens with a comment takes that comment over, delimiters and
/// all, and nothing behind it.
pub proof fn a_comment_is_taken_over_whole(body: Seq<char>, rest: Seq<char>)
    requires
        forall|i: int| 0 <= i < body.len() - 1 ==> !(#[trigger] body[i] == '*' && body[i + 1]
            == '/'),
    ensures
        leading_comment(seq!['/', '*'] + body + seq!['*', '/'] + rest) == Some(
            seq!['/', '*'] + body + seq!['*', '/'],
        ),
{
    let whole = seq!['/', '*'] + body + seq!['*', '/'];
    let source = whole + rest;
    reveal_strlit("/*");
    reveal_strlit("*/");
    assert(source.take(2) =~= "/*"@);
    let inside = source.skip(2);
    let at = body.len() as int;
    assert(inside =~= body + seq!['*', '/'] + rest);
    assert(inside.subrange(at, at + 2) =~= "*/"@);
    assert(occurs_at(inside, "*/"@, at));
    first_position_is_the_first(inside, "*/"@);
    let found = first_position(inside, "*/"@)->0;
    if found < at {
        let here = inside.subrange(found, found + 2);
        assert(here[0] == inside[found] && here[1] == inside[found + 1]);
        assert(inside[found] == body[found]);
        if found < at - 1 {
            assert(inside[found + 1] == body[found + 1]);
        }
        assert(false);
    }
    if found > at {
        assert(!occurs_at(inside, "*/"@, at));
    }
    assert(source.take(at + 4) =~= whole);
}

/// A file that opens with anything else, or whose comment does not end, has no
/// header.
pub proof fn without_a_comment_there_is_no_header(source: Seq<char>)
    ensures
        source.len() < 4 || source[0] != '/' || source[1] != '*' ==> leading_comment(source) is None,
        (forall|i: int| 0 <= i < source.len() - 1 ==> !(#[trigger] source[i] == '*' && source[i + 1]
            == '/')) ==> leading_comment(source) is None,
{
    reveal_strlit("/*");
    reveal_strlit("*/");
    if source.len() >= 2 && source.take(2) == "/*"@ {
        assert(source[0] == source.take(2)[0] && source[1] == source.take(2)[1]);
        let inside = source.skip(2);
        first_position_is_the_first(inside, "*/"@);
        if first_position(inside, "*/"@) is Some {
            let found = first_position(inside, "*/"@)->0;
            let here = inside.subrange(found, found + 2);
            assert(here[0] == source[found + 2] && here[1] == source[found + 3]);
            assert(source[found + 2] == '*' && source[found + 2 + 1] == '/');
        }
    }
}

} // verus!
