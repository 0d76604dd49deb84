//! Building a matcher from a pattern, and asking it about a line.
use crate::engine::{
    compile, compile_complaint, compiled_from, error_message, escape_literal, find_first,
    first_match, has_match,
};
use crate::text::quoted;
use vstd::prelude::*;
use vstd::string::*;
use vstd::utf8::*;

verus! {

/// What a matcher is, as far as matching goes: the pattern text that was
/// compiled, and whether case is ignored.
pub struct MatcherModel {
    pub source: Seq<char>,
    pub ignore_case: bool,
}

/// A compiled pattern, ready to be applied to any number of lines. Matching
/// does not change it.
#[derive(Debug)]
pub struct CompiledMatcher {
    regex: regex::Regex,
}

impl CompiledMatcher {
    /// The regex inside was compiled by this library, from a known pattern.
    #[verifier::type_invariant]
    spec fn compiled_here(self) -> bool {
        compiled_from(self.regex) is Some
    }
}

impl View for CompiledMatcher {
    type V = MatcherModel;

    closed spec fn view(&self) -> MatcherModel {
        MatcherModel {
            source: compiled_from(self.regex).unwrap().0,
            ignore_case: compiled_from(self.regex).unwrap().1,
        }
    }
}

/// A range of bytes in a line, `start` included and `end` excluded.
#[derive(Clone, Copy, Debug, PartialEq, Eq, Structural)]
pub struct Span {
    pub start: usize,
    pub end: usize,
}

/// The range of an optional span as a pair of integers.
pub open spec fn span_range(span: Option<Span>) -> Option<(int, int)> {
    match span {
        Some(s) => Some((s.start as int, s.end as int)),
        None => None,
    }
}

/// A span cuts `line` at character boundaries, in order and within the line.
pub open spec fn span_fits(span: Span, line: Seq<char>) -> bool {
    &&& span.start <= span.end <= encode_utf8(line).len()
    &&& is_char_boundary(encode_utf8(line), span.start as int)
    &&& is_char_boundary(encode_utf8(line), span.end as int)
}

/// The pattern of a regular-expression search is malformed.
#[derive(Debug, PartialEq, Eq)]
pub struct PatternError {
    /// The engine's complaint about the pattern.
    pub complaint: String,
}

/// Why no matcher could be built.
#[derive(Debug, PartialEq, Eq)]
pub enum BuildError {
    /// The pattern, taken as a regular expression, does not compile.
    Pattern(PatternError),
    /// The quoted form of a literal did not compile. Quoting leaves no
    /// syntax to object to, so this is never the fault of the pattern's text.
    LiteralRejected { complaint: String },
}

impl BuildError {
    /// The engine's complaint that the error carries.
    pub open spec fn complaint_text(&self) -> Seq<char> {
        match self {
            BuildError::Pattern(e) => e.complaint@,
            BuildError::LiteralRejected { complaint } => complaint@,
        }
    }

    /// The engine's complaint that the error carries.
    pub fn complaint(&self) -> (text: &str)
        ensures
            text@ == self.complaint_text(),
    {
        match self {
            BuildError::Pattern(e) => e.complaint.as_str(),
            BuildError::LiteralRejected { complaint } => complaint.as_str(),
        }
    }
}

/// The text that is compiled for a pattern: the pattern itself where it is
/// a regular expression, its quoted form where it is a literal.
pub open spec fn effective_source(pattern: Seq<char>, is_regex: bool) -> Seq<char> {
    if is_regex {
        pattern
    } else {
        quoted(pattern)
    }
}

/// The error that stands for a refused compilation: a pattern error for a
/// regular expression, a rejected literal otherwise.
pub open spec fn is_build_failure(err: BuildError, is_regex: bool, complaint: Seq<char>) -> bool {
    &&& err is Pattern <==> is_regex
    &&& err.complaint_text() == complaint
}

/// The error for a compilation that the engine refused with `complaint`: a
/// pattern error where the pattern was a regular expression, a rejected
/// literal where it was the quoted form of a literal.
pub fn build_failure(is_regex: bool, complaint: String) -> (err: BuildError)
    ensures
        is_build_failure(err, is_regex, complaint@),
{
    if is_regex {
        BuildError::Pattern(PatternError { complaint })
    } else {
        BuildError::LiteralRejected { complaint }
    }
}

/// Compiles a pattern into a matcher.
///
/// A regular expression is compiled as it stands, a literal in its quoted
/// form, both by the same engine and with the case flag as a compile-time
/// option. The matcher comes back exactly where the engine accepts the
/// compiled text; where it does not, the error carries its complaint.
pub fn build_matcher(pattern: &str, is_regex: bool, ignore_case: bool) -> (built: Result<
    CompiledMatcher,
    BuildError,
>)
    ensures
        match compile_complaint(effective_source(pattern@, is_regex), ignore_case) {
            None => built matches Ok(m) && m@ == (MatcherModel {
                source: effective_source(pattern@, is_regex),
                ignore_case,
            }),
            Some(complaint) => built matches Err(err) && is_build_failure(err, is_regex, complaint),
        },
{
    let compiled = if is_regex {
        compile(pattern, ignore_case)
    } else {
        let literal = escape_literal(pattern);
        compile(literal.as_str(), ignore_case)
    };
    match compiled {
        Ok(regex) => Ok(CompiledMatcher { regex }),
        Err(e) => Err(build_failure(is_regex, error_message(&e))),
    }
}

impl CompiledMatcher {
    /// Whether the pattern matches anywhere in `line`.
    pub fn is_match(&self, line: &str) -> (found: bool)
        ensures
            found == first_match(self@.source, self@.ignore_case, line@) is Some,
    {
        proof {
            use_type_invariant(self);
        }
        has_match(&self.regex, line)
    }

    /// The byte range of the first match in `line`, if there is a match.
    pub fn find(&self, line: &str) -> (span: Option<Span>)
        ensures
            span_range(span) == first_match(self@.source, self@.ignore_case, line@),
            span matches Some(s) ==> span_fits(s, line@),
    {
        proof {
            use_type_invariant(self);
        }
        match find_first(&self.regex, line) {
            Some((start, end)) => Some(Span { start, end }),
            None => None,
        }
    }
}

} // verus!
