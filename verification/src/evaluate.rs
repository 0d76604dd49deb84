//! Judging lines with a compiled matcher: selection, highlight and the
//! totals of a run.
use crate::engine::first_match;
use crate::matcher::{span_fits, span_range, CompiledMatcher, MatcherModel, Span};
use vstd::prelude::*;
use vstd::string::*;
use vstd::utf8::*;

verus! {

/// The matcher finds its pattern somewhere in `line`.
pub open spec fn raw_match(m: MatcherModel, line: Seq<char>) -> bool {
    first_match(m.source, m.ignore_case, line) is Some
}

/// A line is selected where it matches, or, inverted, where it does not.
pub open spec fn selects(m: MatcherModel, line: Seq<char>, invert: bool) -> bool {
    invert != raw_match(m, line)
}

/// The range to highlight in a line: its first match, unless the search is
/// inverted (a selected line then has no match) or only counts.
pub open spec fn highlight_of(
    m: MatcherModel,
    line: Seq<char>,
    invert: bool,
    count_only: bool,
) -> Option<(int, int)> {
    if invert || count_only {
        None
    } else {
        first_match(m.source, m.ignore_case, line)
    }
}

/// What was decided about one line.
#[derive(Clone, Copy, Debug, PartialEq, Eq, Structural)]
pub struct LineOutcome {
    /// Whether the line is reported.
    pub selected: bool,
    /// Where the first match lies, for a selected line that is to be shown.
    pub highlight: Option<Span>,
}

/// Decides whether `line` is selected and what to highlight in it.
///
/// The matcher is asked once whether the line matches, and that answer
/// settles the selection. The first match is located only for a line that
/// is selected, matched, and is to be shown.
pub fn evaluate_line(matcher: &CompiledMatcher, line: &str, invert: bool, count_only: bool) -> (outcome:
    LineOutcome)
    ensures
        outcome.selected == selects(matcher@, line@, invert),
        span_range(outcome.highlight) == highlight_of(matcher@, line@, invert, count_only),
        outcome.highlight matches Some(s) ==> span_fits(s, line@),
{
    let matched = matcher.is_match(line);
    let selected = if invert {
        !matched
    } else {
        matched
    };
    let highlight = if selected && matched && !count_only {
        matcher.find(line)
    } else {
        None
    };
    LineOutcome { selected, highlight }
}

/// The counters of a run: lines judged so far, and how many of them were
/// selected.
#[derive(Clone, Copy, Debug, PartialEq, Eq, Structural)]
pub struct RunTotals {
    pub lines_seen: usize,
    pub selected: usize,
}

/// One judged line: its number in the input, counted from 1, and the
/// outcome.
#[derive(Clone, Copy, Debug, PartialEq, Eq, Structural)]
pub struct LineReport {
    pub line_no: usize,
    pub outcome: LineOutcome,
}

impl RunTotals {
    /// No more lines were selected than were seen.
    pub open spec fn wf(&self) -> bool {
        self.selected <= self.lines_seen
    }

    /// The totals at the start of a run.
    pub fn new() -> (totals: RunTotals)
        ensures
            totals.lines_seen == 0,
            totals.selected == 0,
            totals.wf(),
    {
        RunTotals { lines_seen: 0, selected: 0 }
    }

    /// Counts one more line, selected or not, and gives its number.
    pub fn record(&mut self, selected: bool) -> (line_no: usize)
        requires
            old(self).wf(),
            old(self).lines_seen < usize::MAX,
        ensures
            final(self).wf(),
            final(self).lines_seen == old(self).lines_seen + 1,
            final(self).selected == old(self).selected + if selected {
                1int
            } else {
                0int
            },
            line_no == final(self).lines_seen,
    {
        self.lines_seen = self.lines_seen + 1;
        if selected {
            self.selected = self.selected + 1;
        }
        self.lines_seen
    }
}

/// Judges the next line of a run and counts it.
///
/// Every line takes the next number, selected or not; a selected line adds
/// one to the total, whatever `invert` and `count_only` are.
pub fn step(
    totals: &mut RunTotals,
    matcher: &CompiledMatcher,
    line: &str,
    invert: bool,
    count_only: bool,
) -> (report: LineReport)
    requires
        old(totals).wf(),
        old(totals).lines_seen < usize::MAX,
    ensures
        final(totals).wf(),
        final(totals).lines_seen == old(totals).lines_seen + 1,
        final(totals).selected == old(totals).selected + if selects(matcher@, line@, invert) {
            1int
        } else {
            0int
        },
        report.line_no == final(totals).lines_seen,
        report.outcome.selected == selects(matcher@, line@, invert),
        span_range(report.outcome.highlight) == highlight_of(matcher@, line@, invert, count_only),
        report.outcome.highlight matches Some(s) ==> span_fits(s, line@),
{
    let outcome = evaluate_line(matcher, line, invert, count_only);
    let line_no = totals.record(outcome.selected);
    LineReport { line_no, outcome }
}

/// A selected line of a run: its number, counted from 1, and the range to
/// highlight in it.
#[derive(Clone, Copy, Debug, PartialEq, Eq, Structural)]
pub struct SelectedLine {
    pub line_no: usize,
    pub highlight: Option<Span>,
}

/// The result of a run over a whole input.
#[derive(Debug, PartialEq, Eq)]
pub struct RunReport {
    /// How many lines were selected.
    pub total: usize,
    /// The selected lines, in input order.
    pub selected: Vec<SelectedLine>,
}

/// The texts of a sequence of lines.
pub open spec fn texts(lines: Seq<String>) -> Seq<Seq<char>> {
    Seq::new(lines.len(), |i: int| lines[i]@)
}

/// The selected lines as pairs of line number and highlight range.
pub open spec fn listing(selected: Seq<SelectedLine>) -> Seq<(int, Option<(int, int)>)> {
    Seq::new(selected.len(), |i: int| (selected[i].line_no as int, span_range(selected[i].highlight)))
}

/// How many of `lines` are selected.
pub open spec fn selected_count(m: MatcherModel, lines: Seq<Seq<char>>, invert: bool) -> nat
    decreases lines.len(),
{
    if lines.len() == 0 {
        0
    } else {
        selected_count(m, lines.drop_last(), invert) + if selects(m, lines.last(), invert) {
            1nat
        } else {
            0nat
        }
    }
}

/// The selected ones among `lines`, in input order, each with its number,
/// counted from 1, and the range to highlight.
pub open spec fn selected_lines(
    m: MatcherModel,
    lines: Seq<Seq<char>>,
    invert: bool,
    count_only: bool,
) -> Seq<(int, Option<(int, int)>)>
    decreases lines.len(),
{
    if lines.len() == 0 {
        Seq::empty()
    } else {
        let before = selected_lines(m, lines.drop_last(), invert, count_only);
        if selects(m, lines.last(), invert) {
            before.push((lines.len() as int, highlight_of(m, lines.last(), invert, count_only)))
        } else {
            before
        }
    }
}

/// Runs the matcher over `lines` in order: which lines are selected, what
/// to highlight in each, and how many there are.
pub fn search_lines(
    matcher: &CompiledMatcher,
    lines: &Vec<String>,
    invert: bool,
    count_only: bool,
) -> (report: RunReport)
    ensures
        report.total == selected_count(matcher@, texts(lines@), invert),
        listing(report.selected@) == selected_lines(matcher@, texts(lines@), invert, count_only),
        forall|k: int|
            0 <= k < report.selected.len() ==> {
                let entry = #[trigger] report.selected[k];
                &&& 1 <= entry.line_no <= lines.len()
                &&& entry.highlight matches Some(s) ==> span_fits(s, lines[entry.line_no - 1]@)
            },
{
    let mut totals = RunTotals::new();
    let mut selected: Vec<SelectedLine> = Vec::new();
    let mut i: usize = 0;
    while i < lines.len()
        invariant
            i <= lines.len(),
            totals.wf(),
            totals.lines_seen == i,
            totals.selected == selected_count(matcher@, texts(lines@).subrange(0, i as int), invert),
            listing(selected@) == selected_lines(
                matcher@,
                texts(lines@).subrange(0, i as int),
                invert,
                count_only,
            ),
            forall|k: int|
                0 <= k < selected.len() ==> {
                    let entry = #[trigger] selected[k];
                    &&& 1 <= entry.line_no <= i
                    &&& entry.highlight matches Some(s) ==> span_fits(s, lines[entry.line_no - 1]@)
                },
        decreases lines.len() - i,
    {
        let ghost seen = texts(lines@).subrange(0, i as int);
        let ghost next = texts(lines@).subrange(0, i + 1);
        let ghost listed = listing(selected@);
        assert(next.drop_last() =~= seen);
        assert(next.last() == lines[i as int]@);
        let report = step(&mut totals, matcher, lines[i].as_str(), invert, count_only);
        if report.outcome.selected {
            selected.push(SelectedLine { line_no: report.line_no, highlight: report.outcome.highlight });
            assert(listing(selected@) =~= listed.push(
                (report.line_no as int, span_range(report.outcome.highlight)),
            ));
        }
        i = i + 1;
    }
    assert(texts(lines@).subrange(0, i as int) =~= texts(lines@));
    RunReport { total: totals.selected, selected }
}

/// A character boundary of a text, at or behind a boundary `start`, is a
/// boundary of what follows `start`.
proof fn lemma_boundary_in_suffix(bytes: Seq<u8>, start: int, end: int)
    requires
        valid_utf8(bytes),
        0 <= start <= end <= bytes.len(),
        is_char_boundary(bytes, start),
        is_char_boundary(bytes, end),
    ensures
        valid_utf8(bytes.subrange(start, bytes.len() as int)),
        is_char_boundary(bytes.subrange(start, bytes.len() as int), end - start),
{
    let rest = bytes.subrange(start, bytes.len() as int);
    valid_utf8_split(bytes, start);
    if end == bytes.len() {
        is_char_boundary_start_end_of_seq(rest);
    } else {
        is_char_boundary_iff_not_is_continuation_byte(bytes, end);
        is_char_boundary_iff_not_is_continuation_byte(rest, end - start);
    }
}

/// Cuts `line` at a span: the text before it, the text in it, and the text
/// behind it.
pub fn highlight_parts<'a>(line: &'a str, span: Span) -> (parts: (&'a str, &'a str, &'a str))
    requires
        span_fits(span, line@),
    ensures
        line@ == parts.0@ + parts.1@ + parts.2@,
        encode_utf8(parts.0@).len() == span.start,
        encode_utf8(parts.1@).len() == span.end - span.start,
        encode_utf8(parts.1@) == encode_utf8(line@).subrange(span.start as int, span.end as int),
{
    let ghost bytes = encode_utf8(line@);
    let ghost rest_bytes = bytes.subrange(span.start as int, bytes.len() as int);
    proof {
        encode_utf8_valid_utf8(line@);
        lemma_boundary_in_suffix(bytes, span.start as int, span.end as int);
    }
    let (head, rest) = line.split_at(span.start);
    assert(rest.spec_bytes() == rest_bytes);
    let (mid, tail) = rest.split_at(span.end - span.start);
    proof {
        let cut = span.end - span.start;
        encode_utf8_decode_utf8(line@);
        encode_utf8_decode_utf8(head@);
        encode_utf8_decode_utf8(rest@);
        encode_utf8_decode_utf8(mid@);
        encode_utf8_decode_utf8(tail@);
        decode_utf8_split(bytes, span.start as int);
        decode_utf8_split(rest_bytes, cut);
        assert(rest_bytes.subrange(0, cut) =~= bytes.subrange(span.start as int, span.end as int));
        assert(line@ =~= head@ + mid@ + tail@);
    }
    (head, mid, tail)
}

} // verus!
