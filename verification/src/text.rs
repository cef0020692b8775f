//! Text as sequences of characters.

use vstd::prelude::*;
use vstd::std_specs::iter::IteratorSpec;

verus! {

/// `String::push` appends the character to the end of the string.
pub assume_specification[ String::push ](text: &mut String, c: char)
    ensures
        final(text)@ == old(text)@.push(c),
;

/// `str`'s `==` holds exactly of two slices with the same characters.
pub assume_specification[ <str as PartialEq>::eq ](a: &str, b: &str) -> (same: bool)
    ensures
        same == (a@ == b@),
;

/// The characters of `text`, in order.
pub fn chars_of(text: &str) -> (chars: Vec<char>)
    ensures
        chars@ == text@,
{
    let mut chars: Vec<char> = Vec::new();
    let mut rest = text.chars();
    loop
        invariant
            chars@ + rest.remaining() == text@,
            rest.obeys_prophetic_iter_laws(),
            rest.decrease() is Some,
        ensures
            chars@ == text@,
        decreases rest.decrease()->0,
    {
        match rest.next() {
            Some(c) => {
                chars.push(c);
            },
            None => {
                break;
            },
        }
    }
    chars
}

/// The string made of `chars`, in order.
pub fn string_of(chars: &Vec<char>) -> (text: String)
    ensures
        text@ == chars@,
{
    let mut text = String::new();
    let mut at: usize = 0;
    while at < chars.len()
        invariant
            at <= chars.len(),
            text@ == chars@.take(at as int),
        decreases chars.len() - at,
    {
        text.push(chars[at]);
        at += 1;
        assert(chars@.take(at as int) =~= chars@.take(at as int - 1).push(chars@[at as int - 1]));
    }
    assert(chars@.take(chars.len() as int) =~= chars@);
    text
}

/// The lower-case form of a text in Unicode's sense.
pub uninterp spec fn lowercased(text: Seq<char>) -> Seq<char>;

/// `str::to_lowercase` gives the lower-case form of the text as a new string;
/// it depends on the characters alone.
pub assume_specification[ str::to_lowercase ](text: &str) -> (lower: String)
    ensures
        lower@ == lowercased(text@),
;

/// Whether a character is white space in Unicode's sense.
pub uninterp spec fn is_white_space(c: char) -> bool;

/// `char::is_whitespace` tells whether the character has Unicode's property
/// White_Space; the answer depends on the character alone.
pub assume_specification[ char::is_whitespace ](c: char) -> (white: bool)
    ensures
        white == is_white_space(c),
;

/// How many white-space characters `text` begins with.
pub open spec fn leading_white(text: Seq<char>) -> nat
    decreases text.len(),
{
    if text.len() > 0 && is_white_space(text[0]) {
        1 + leading_white(text.skip(1))
    } else {
        0
    }
}

/// How many white-space characters `text` ends with.
pub open spec fn trailing_white(text: Seq<char>) -> nat
    decreases text.len(),
{
    if text.len() > 0 && is_white_space(text.last()) {
        1 + trailing_white(text.drop_last())
    } else {
        0
    }
}

/// `text` without the white space it begins with and ends with.
pub open spec fn trimmed(text: Seq<char>) -> Seq<char> {
    let rest = text.skip(leading_white(text) as int);
    rest.take(rest.len() - trailing_white(rest))
}

/// The leading white space lies within the text, is white space throughout,
/// and ends before a character that is none.
pub proof fn lemma_leading_white(text: Seq<char>)
    ensures
        leading_white(text) <= text.len(),
        forall|i: int| 0 <= i < leading_white(text) ==> is_white_space(#[trigger] text[i]),
        leading_white(text) < text.len() ==> !is_white_space(text[leading_white(text) as int]),
    decreases text.len(),
{
    if text.len() > 0 && is_white_space(text[0]) {
        let rest = text.skip(1);
        lemma_leading_white(rest);
        assert forall|i: int| 0 <= i < leading_white(text) implies is_white_space(
            #[trigger] text[i],
        ) by {
            if i > 0 {
                assert(text[i] == rest[i - 1]);
            }
        }
        if leading_white(text) < text.len() {
            assert(text[leading_white(text) as int] == rest[leading_white(rest) as int]);
        }
    }
}

/// The trailing white space lies within the text, is white space throughout,
/// and begins after a character that is none.
pub proof fn lemma_trailing_white(text: Seq<char>)
    ensures
        trailing_white(text) <= text.len(),
        forall|i: int|
            text.len() - trailing_white(text) <= i < text.len() ==> is_white_space(
                #[trigger] text[i],
            ),
        trailing_white(text) < text.len() ==> !is_white_space(
            text[text.len() - trailing_white(text) - 1],
        ),
    decreases text.len(),
{
    if text.len() > 0 && is_white_space(text.last()) {
        let rest = text.drop_last();
        lemma_trailing_white(rest);
        assert forall|i: int|
            text.len() - trailing_white(text) <= i < text.len() implies is_white_space(
            #[trigger] text[i],
        ) by {
            if i < text.len() - 1 {
                assert(text[i] == rest[i]);
            }
        }
        if trailing_white(text) < text.len() {
            assert(text[text.len() - trailing_white(text) - 1] == rest[rest.len()
                - trailing_white(rest) - 1]);
        }
    }
}

/// A trimmed text is a stretch of the text it was made from; it neither
/// begins nor ends with white space, and only white space was left out.
pub proof fn lemma_trimmed_ends(text: Seq<char>)
    ensures
        exists|from: int, to: int|
            0 <= from <= to <= text.len() && #[trigger] text.subrange(from, to) == trimmed(text)
                && (forall|i: int|
                0 <= i < from || to <= i < text.len() ==> is_white_space(#[trigger] text[i])),
        trimmed(text).len() > 0 ==> !is_white_space(trimmed(text).first()) && !is_white_space(
            trimmed(text).last(),
        ),
{
    lemma_leading_white(text);
    let from = leading_white(text) as int;
    let rest = text.skip(from);
    lemma_trailing_white(rest);
    let to = text.len() - trailing_white(rest);
    assert(text.subrange(from, to) =~= trimmed(text));
    assert forall|i: int| 0 <= i < from || to <= i < text.len() implies is_white_space(
        #[trigger] text[i],
    ) by {
        if to <= i {
            assert(text[i] == rest[i - from]);
        }
    }
    if trimmed(text).len() > 0 {
        assert(trimmed(text).first() == text[from]);
        assert(trimmed(text).last() == rest[rest.len() - trailing_white(rest) - 1]);
    }
}

/// Removes the white space at both ends of `text`.
pub fn trim(text: &Vec<char>) -> (core: Vec<char>)
    ensures
        core@ == trimmed(text@),
{
    let mut start: usize = 0;
    assert(text@.skip(0) =~= text@);
    while start < text.len() && text[start].is_whitespace()
        invariant
            start <= text.len(),
            leading_white(text@) == start + leading_white(text@.skip(start as int)),
        decreases text.len() - start,
    {
        assert(text@.skip(start as int)[0] == text@[start as int]);
        assert(text@.skip(start as int).skip(1) =~= text@.skip(start as int + 1));
        start += 1;
    }
    assert(leading_white(text@) == start) by {
        if start < text.len() {
            assert(text@.skip(start as int)[0] == text@[start as int]);
        }
    }
    let ghost rest = text@.skip(start as int);
    let mut end: usize = text.len();
    assert(rest.take(end - start) =~= rest);
    while end > start && text[end - 1].is_whitespace()
        invariant
            start <= end <= text.len(),
            rest == text@.skip(start as int),
            trailing_white(rest) == (text.len() - end) + trailing_white(rest.take(end - start)),
        decreases end,
    {
        assert(rest.take(end - start).last() == text@[end - 1]);
        assert(rest.take(end - start).drop_last() =~= rest.take(end - start - 1));
        end -= 1;
    }
    assert(trailing_white(rest) == text.len() - end) by {
        if end > start {
            assert(rest.take(end - start).last() == text@[end - 1]);
        }
    }
    let mut core: Vec<char> = Vec::new();
    let mut at: usize = start;
    while at < end
        invariant
            start <= at <= end <= text.len(),
            core@ == text@.subrange(start as int, at as int),
        decreases end - at,
    {
        core.push(text[at]);
        assert(text@.subrange(start as int, at as int + 1) =~= text@.subrange(
            start as int,
            at as int,
        ).push(text@[at as int]));
        at += 1;
    }
    assert(text@.subrange(start as int, end as int) =~= trimmed(text@));
    core
}

} // verus!
