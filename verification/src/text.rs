//! The mathematics of literal search: where a needle occurs in a text, the
//! byte offsets of a range of characters, and the quoting of a literal for
//! use as a pattern.
use vstd::prelude::*;
use vstd::utf8::*;

verus! {

/// `needle` stands in `hay` at character index `i`.
pub open spec fn occurs_at(needle: Seq<char>, hay: Seq<char>, i: int) -> bool {
    &&& 0 <= i
    &&& i + needle.len() <= hay.len()
    &&& hay.subrange(i, i + needle.len()) =~= needle
}

/// `hay` holds `needle` as a contiguous run of characters.
pub open spec fn contains(needle: Seq<char>, hay: Seq<char>) -> bool {
    exists|i: int| occurs_at(needle, hay, i)
}

/// The first index from `from` on at which `needle` stands in `hay`.
pub open spec fn first_occurrence_from(needle: Seq<char>, hay: Seq<char>, from: int) -> Option<int>
    decreases hay.len() - from,
{
    if from < 0 || from + needle.len() > hay.len() {
        None
    } else if occurs_at(needle, hay, from) {
        Some(from)
    } else {
        first_occurrence_from(needle, hay, from + 1)
    }
}

/// The leftmost index at which `needle` stands in `hay`.
pub open spec fn first_occurrence(needle: Seq<char>, hay: Seq<char>) -> Option<int> {
    first_occurrence_from(needle, hay, 0)
}

/// The number of bytes that the first `chars` characters of `text` take in
/// UTF-8.
pub open spec fn byte_offset(text: Seq<char>, chars: int) -> int {
    encode_utf8(text.subrange(0, chars)).len() as int
}

/// The byte range of the leftmost occurrence of `needle` in `hay`.
pub open spec fn first_occurrence_span(needle: Seq<char>, hay: Seq<char>) -> Option<(int, int)> {
    match first_occurrence(needle, hay) {
        Some(i) => Some((byte_offset(hay, i), byte_offset(hay, i + needle.len()))),
        None => None,
    }
}

/// The characters that carry a meaning of their own in a pattern.
pub open spec fn is_meta_char(c: char) -> bool {
    c == '\\' || c == '.' || c == '+' || c == '*' || c == '?' || c == '(' || c == ')' || c == '|'
        || c == '[' || c == ']' || c == '{' || c == '}' || c == '^' || c == '$' || c == '#'
        || c == '&' || c == '-' || c == '~'
}

/// One character of a literal as it is written in a pattern: a meta
/// character behind a backslash, any other as it is.
pub open spec fn quoted_char(c: char) -> Seq<char> {
    if is_meta_char(c) {
        seq!['\\', c]
    } else {
        seq![c]
    }
}

/// The pattern that stands for the literal `text`: each character quoted in
/// turn.
pub open spec fn quoted(text: Seq<char>) -> Seq<char>
    decreases text.len(),
{
    if text.len() == 0 {
        Seq::empty()
    } else {
        quoted(text.drop_last()) + quoted_char(text.last())
    }
}

/// An ASCII capital as its small letter, any other character as it is.
pub open spec fn ascii_lower_char(c: char) -> char {
    if 'A' <= c && c <= 'Z' {
        ((c as u8 + 32) as u8) as char
    } else {
        c
    }
}

/// `text` with each ASCII capital replaced by its small letter.
pub open spec fn ascii_lower(text: Seq<char>) -> Seq<char> {
    Seq::new(text.len(), |i: int| ascii_lower_char(text[i]))
}

/// What `first_occurrence_from` finds is an occurrence not before `from`,
/// and no occurrence lies between `from` and it; where it finds nothing,
/// there is none from `from` on.
pub proof fn lemma_first_occurrence_from(needle: Seq<char>, hay: Seq<char>, from: int)
    requires
        0 <= from,
    ensures
        match first_occurrence_from(needle, hay, from) {
            Some(i) => from <= i && occurs_at(needle, hay, i) && forall|j: int|
                from <= j < i ==> !occurs_at(needle, hay, j),
            None => forall|j: int| from <= j ==> !occurs_at(needle, hay, j),
        },
    decreases hay.len() - from,
{
    if from + needle.len() > hay.len() {
    } else if occurs_at(needle, hay, from) {
    } else {
        lemma_first_occurrence_from(needle, hay, from + 1);
    }
}

/// The leftmost occurrence exists exactly where the text holds the needle,
/// it is an occurrence, and none stands before it.
pub proof fn lemma_first_occurrence_is_leftmost(needle: Seq<char>, hay: Seq<char>)
    ensures
        first_occurrence(needle, hay) is Some <==> contains(needle, hay),
        first_occurrence(needle, hay) matches Some(i) ==> occurs_at(needle, hay, i) && forall|
            j: int,
        |
            occurs_at(needle, hay, j) ==> i <= j,
{
    lemma_first_occurrence_from(needle, hay, 0);
    if contains(needle, hay) {
        let i = choose|i: int| occurs_at(needle, hay, i);
        assert(occurs_at(needle, hay, i));
    }
}

/// Encoding two texts one after the other is encoding their concatenation.
pub proof fn lemma_encode_concat(a: Seq<char>, b: Seq<char>)
    ensures
        encode_utf8(a + b) =~= encode_utf8(a) + encode_utf8(b),
    decreases a.len(),
{
    if a.len() == 0 {
        assert(a + b =~= b);
    } else {
        assert((a + b).drop_first() =~= a.drop_first() + b);
        lemma_encode_concat(a.drop_first(), b);
    }
}

/// Byte offsets grow with character indices, and the bytes between two of
/// them are the encoding of the characters between.
pub proof fn lemma_byte_offsets(text: Seq<char>, i: int, j: int)
    requires
        0 <= i <= j <= text.len(),
    ensures
        0 <= byte_offset(text, i) <= byte_offset(text, j) <= encode_utf8(text).len(),
        encode_utf8(text).subrange(byte_offset(text, i), byte_offset(text, j)) =~= encode_utf8(
            text.subrange(i, j),
        ),
{
    let head = text.subrange(0, i);
    let mid = text.subrange(i, j);
    let tail = text.subrange(j, text.len() as int);
    assert(text.subrange(0, j) =~= head + mid);
    assert(text =~= text.subrange(0, j) + tail);
    lemma_encode_concat(head, mid);
    lemma_encode_concat(text.subrange(0, j), tail);
}

/// A quoted text ends with the last character of the text, and is empty
/// only for the empty text.
proof fn lemma_quoted_last(text: Seq<char>)
    ensures
        text.len() == 0 <==> quoted(text).len() == 0,
        text.len() > 0 ==> quoted(text).last() == text.last(),
{
    if text.len() > 0 {
        assert(quoted(text) == quoted(text.drop_last()) + quoted_char(text.last()));
    }
}

/// Two texts with the same quoted form are the same text.
pub proof fn lemma_quoted_injective(a: Seq<char>, b: Seq<char>)
    requires
        quoted(a) == quoted(b),
    ensures
        a == b,
    decreases a.len(),
{
    lemma_quoted_last(a);
    lemma_quoted_last(b);
    if a.len() == 0 {
        assert(a =~= b);
    } else {
        let tail = quoted_char(a.last());
        let qa = quoted(a.drop_last());
        let qb = quoted(b.drop_last());
        assert(quoted(a) == qa + tail);
        assert(quoted(b) == qb + tail);
        assert(qa =~= (qa + tail).subrange(0, qa.len() as int));
        assert(qb =~= (qb + tail).subrange(0, qb.len() as int));
        lemma_quoted_injective(a.drop_last(), b.drop_last());
        assert(a =~= a.drop_last().push(a.last()));
        assert(b =~= b.drop_last().push(b.last()));
    }
}

} // verus!
