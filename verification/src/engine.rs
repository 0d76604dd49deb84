//! The regular-expression engine behind the matcher.
//!
//! Patterns are compiled and run by the `regex` crate. Nothing in this file
//! is proved: it states what the rest of the crate takes from the engine.
use crate::text::{ascii_lower, first_occurrence_span, quoted};
use vstd::prelude::*;
use vstd::string::*;
use vstd::utf8::*;

verus! {

/// A compiled pattern of the engine, `regex::Regex`.
#[verifier::external_type_specification]
#[verifier::external_body]
pub struct ExRegex(regex::Regex);

/// The engine's reason for refusing a pattern, `regex::Error`.
#[verifier::external_type_specification]
#[verifier::external_body]
pub struct ExRegexError(regex::Error);

/// The pattern text and the case flag of a `regex::Regex` that was compiled
/// from a pattern with no option set but the case flag; `None` for a regex
/// that was made in any other way.
pub uninterp spec fn compiled_from(re: regex::Regex) -> Option<(Seq<char>, bool)>;

/// The engine's complaint about a pattern compiled with the given case
/// flag, `None` where it accepts the pattern.
pub uninterp spec fn compile_complaint(source: Seq<char>, ignore_case: bool) -> Option<Seq<char>>;

/// The message of a `regex::Error`.
pub uninterp spec fn error_text(e: regex::Error) -> Seq<char>;

/// The byte range of the first match that the engine finds for a pattern in
/// a haystack, `None` where it finds none.
pub uninterp spec fn engine_first_match(
    source: Seq<char>,
    ignore_case: bool,
    haystack: Seq<char>,
) -> Option<(int, int)>;

/// `source` is the quoted form of a literal.
pub open spec fn is_quoted(source: Seq<char>) -> bool {
    exists|literal: Seq<char>| #[trigger] quoted(literal) == source
}

/// The literal whose quoted form `source` is.
pub open spec fn unquoted(source: Seq<char>) -> Seq<char>
    recommends
        is_quoted(source),
{
    choose|literal: Seq<char>| #[trigger] quoted(literal) == source
}

/// The byte range of the first match of a pattern in a haystack.
///
/// A quoted literal matches its own text and nothing else, so its first
/// match is the leftmost occurrence of that text. With the case flag set
/// and both texts in ASCII, letters match in either case, and the first
/// match is the leftmost occurrence once both are lowered (ASCII text keeps
/// its byte offsets when lowered). For every other pattern the range is
/// whatever the engine finds.
pub open spec fn first_match(source: Seq<char>, ignore_case: bool, haystack: Seq<char>) -> Option<
    (int, int),
> {
    if is_quoted(source) && !ignore_case {
        first_occurrence_span(unquoted(source), haystack)
    } else if is_quoted(source) && is_ascii_chars(unquoted(source)) && is_ascii_chars(haystack) {
        first_occurrence_span(ascii_lower(unquoted(source)), ascii_lower(haystack))
    } else {
        engine_first_match(source, ignore_case, haystack)
    }
}

/// A pair of byte offsets as a pair of integers.
pub open spec fn span_model(span: Option<(usize, usize)>) -> Option<(int, int)> {
    match span {
        Some((start, end)) => Some((start as int, end as int)),
        None => None,
    }
}

/// Calls `regex::escape`, which copies the text and puts a backslash before
/// each meta character.
#[verifier::external_body]
pub(crate) fn escape_literal(text: &str) -> (escaped: String)
    ensures
        escaped@ == quoted(text@),
{
    regex::escape(text)
}

/// Calls `regex::RegexBuilder::new`, `case_insensitive` and `build`: the
/// pattern is compiled with the case flag as a compile-time option and
/// every other option at its default. The outcome is settled by the pattern
/// and the flag.
#[verifier::external_body]
pub(crate) fn compile(source: &str, ignore_case: bool) -> (compiled: Result<
    regex::Regex,
    regex::Error,
>)
    ensures
        compiled is Ok <==> compile_complaint(source@, ignore_case) is None,
        compiled matches Ok(re) ==> compiled_from(re) == Some((source@, ignore_case)),
        compiled matches Err(e) ==> compile_complaint(source@, ignore_case) == Some(error_text(e)),
{
    let mut builder = regex::RegexBuilder::new(source);
    builder.case_insensitive(ignore_case);
    builder.build()
}

/// Formats a `regex::Error` through its `Display` impl.
#[verifier::external_body]
pub(crate) fn error_message(e: &regex::Error) -> (message: String)
    ensures
        message@ == error_text(*e),
{
    e.to_string()
}

/// Calls `regex::Regex::is_match`: whether the pattern matches anywhere in
/// the haystack, which is whether a search for the first match finds one,
/// and for a quoted literal whether the haystack holds its text, as
/// `first_match` says.
#[verifier::external_body]
pub(crate) fn has_match(re: &regex::Regex, haystack: &str) -> (found: bool)
    requires
        compiled_from(*re) is Some,
    ensures
        found == engine_first_match(
            compiled_from(*re).unwrap().0,
            compiled_from(*re).unwrap().1,
            haystack@,
        ) is Some,
        found == first_match(
            compiled_from(*re).unwrap().0,
            compiled_from(*re).unwrap().1,
            haystack@,
        ) is Some,
{
    re.is_match(haystack)
}

/// Calls `regex::Regex::find` and reads `start` and `end` of the match: the
/// byte range of the first match, which for a quoted literal is the
/// leftmost occurrence of its text, as `first_match` says. The offsets are
/// in order, within the haystack and on character boundaries.
#[verifier::external_body]
pub(crate) fn find_first(re: &regex::Regex, haystack: &str) -> (span: Option<(usize, usize)>)
    requires
        compiled_from(*re) is Some,
    ensures
        span_model(span) == engine_first_match(
            compiled_from(*re).unwrap().0,
            compiled_from(*re).unwrap().1,
            haystack@,
        ),
        span_model(span) == first_match(
            compiled_from(*re).unwrap().0,
            compiled_from(*re).unwrap().1,
            haystack@,
        ),
        span matches Some((start, end)) ==> {
            &&& start <= end <= haystack.spec_bytes().len()
            &&& is_char_boundary(haystack.spec_bytes(), start as int)
            &&& is_char_boundary(haystack.spec_bytes(), end as int)
        },
{
    match re.find(haystack) {
        Some(m) => Some((m.start(), m.end())),
        None => None,
    }
}

} // verus!
