//! What holds of the search as a whole, proved from the definitions.
use crate::engine::{is_quoted, unquoted};
use crate::evaluate::{highlight_of, raw_match, selected_count, selected_lines, selects};
use crate::matcher::MatcherModel;
use crate::text::{
    ascii_lower, byte_offset, contains, first_occurrence, first_occurrence_span,
    lemma_byte_offsets, lemma_first_occurrence_is_leftmost, lemma_quoted_injective, occurs_at,
    quoted,
};
use vstd::prelude::*;
use vstd::utf8::*;

verus! {

/// The matcher that `build_matcher` gives for a literal.
pub open spec fn literal_matcher(literal: Seq<char>, ignore_case: bool) -> MatcherModel {
    MatcherModel { source: quoted(literal), ignore_case }
}

/// The quoted form of a literal is recognised as such, and names that
/// literal.
pub proof fn lemma_unquoted_quoted(literal: Seq<char>)
    ensures
        is_quoted(quoted(literal)),
        unquoted(quoted(literal)) == literal,
{
    assert(quoted(literal) == quoted(literal));
    lemma_quoted_injective(unquoted(quoted(literal)), literal);
}

/// Lowering keeps ASCII text in ASCII, and lowering twice is lowering once.
pub proof fn lemma_ascii_lower(text: Seq<char>)
    requires
        is_ascii_chars(text),
    ensures
        is_ascii_chars(ascii_lower(text)),
        ascii_lower(ascii_lower(text)) == ascii_lower(text),
{
    assert(ascii_lower(ascii_lower(text)) =~= ascii_lower(text));
}

/// A case-sensitive literal search selects a line exactly where the line
/// holds the literal as a contiguous run of characters, or, inverted, where
/// it does not.
pub proof fn law_literal_selects_containing_lines(
    literal: Seq<char>,
    line: Seq<char>,
    invert: bool,
)
    ensures
        selects(literal_matcher(literal, false), line, invert) == (invert != contains(
            literal,
            line,
        )),
{
    lemma_unquoted_quoted(literal);
    lemma_first_occurrence_is_leftmost(literal, line);
}

/// A literal search that ignores case selects an ASCII line for an ASCII
/// literal exactly where the lowered line holds the lowered literal, or,
/// inverted, where it does not.
pub proof fn law_caseless_literal_selects_containing_lines(
    literal: Seq<char>,
    line: Seq<char>,
    invert: bool,
)
    requires
        is_ascii_chars(literal),
        is_ascii_chars(line),
    ensures
        selects(literal_matcher(literal, true), line, invert) == (invert != contains(
            ascii_lower(literal),
            ascii_lower(line),
        )),
{
    lemma_unquoted_quoted(literal);
    lemma_first_occurrence_is_leftmost(ascii_lower(literal), ascii_lower(line));
}

/// For ASCII texts, a literal search that ignores case selects a line
/// exactly where the search for the lowered literal selects the lowered
/// line, be that search case-sensitive or not.
pub proof fn law_ignore_case_is_search_of_lowered(
    literal: Seq<char>,
    line: Seq<char>,
    invert: bool,
)
    requires
        is_ascii_chars(literal),
        is_ascii_chars(line),
    ensures
        selects(literal_matcher(literal, true), line, invert) == selects(
            literal_matcher(ascii_lower(literal), false),
            ascii_lower(line),
            invert,
        ),
        selects(literal_matcher(literal, true), line, invert) == selects(
            literal_matcher(ascii_lower(literal), true),
            ascii_lower(line),
            invert,
        ),
{
    lemma_unquoted_quoted(literal);
    lemma_unquoted_quoted(ascii_lower(literal));
    lemma_ascii_lower(literal);
    lemma_ascii_lower(line);
}

/// Inverting a search selects exactly the lines that the search itself
/// leaves out, whatever is highlighted.
pub proof fn law_invert_complements_selection(m: MatcherModel, line: Seq<char>)
    ensures
        selects(m, line, true) == !selects(m, line, false),
        selects(m, line, false) == raw_match(m, line),
{
}

/// The highlight of a case-sensitive literal search is there exactly for
/// the lines that hold the literal; its bytes are those of the literal, and
/// it is the leftmost occurrence: no occurrence starts before it.
pub proof fn law_literal_highlight_is_leftmost_occurrence(literal: Seq<char>, line: Seq<char>)
    ensures
        highlight_of(literal_matcher(literal, false), line, false, false) is Some <==> contains(
            literal,
            line,
        ),
        highlight_of(literal_matcher(literal, false), line, false, false) matches Some(
            (start, end),
        ) ==> {
            &&& 0 <= start <= end <= encode_utf8(line).len()
            &&& encode_utf8(line).subrange(start, end) == encode_utf8(literal)
            &&& exists|i: int| occurs_at(literal, line, i) && start == byte_offset(line, i)
            &&& forall|j: int| occurs_at(literal, line, j) ==> start <= byte_offset(line, j)
        },
{
    lemma_unquoted_quoted(literal);
    lemma_first_occurrence_is_leftmost(literal, line);
    if let Some(i) = first_occurrence(literal, line) {
        lemma_byte_offsets(line, i, i + literal.len());
        assert(first_occurrence_span(literal, line) == Some(
            (byte_offset(line, i), byte_offset(line, i + literal.len())),
        ));
        assert(line.subrange(i, i + literal.len()) =~= literal);
        assert forall|j: int| occurs_at(literal, line, j) implies byte_offset(line, i)
            <= byte_offset(line, j) by {
            lemma_byte_offsets(line, i, j);
        }
    }
}

/// The total of a run is the number of its lines that are selected, and
/// the run lists that many lines.
pub proof fn law_total_counts_selected_lines(
    m: MatcherModel,
    lines: Seq<Seq<char>>,
    invert: bool,
    count_only: bool,
)
    ensures
        selected_count(m, lines, invert) == lines.filter(
            |line: Seq<char>| selects(m, line, invert),
        ).len(),
        selected_lines(m, lines, invert, count_only).len() == selected_count(m, lines, invert),
    decreases lines.len(),
{
    reveal(Seq::filter);
    if lines.len() > 0 {
        law_total_counts_selected_lines(m, lines.drop_last(), invert, count_only);
    }
}

/// A run lists the selected lines and no others, in input order: each
/// entry carries the number of a selected line, counted from 1, with the
/// highlight of that line; the numbers grow along the list; and every
/// selected line is listed.
pub proof fn law_run_lists_selected_lines_in_order(
    m: MatcherModel,
    lines: Seq<Seq<char>>,
    invert: bool,
    count_only: bool,
)
    ensures
        forall|k: int|
            0 <= k < selected_lines(m, lines, invert, count_only).len() ==> {
                let entry = #[trigger] selected_lines(m, lines, invert, count_only)[k];
                &&& 1 <= entry.0 <= lines.len()
                &&& selects(m, lines[entry.0 - 1], invert)
                &&& entry.1 == highlight_of(m, lines[entry.0 - 1], invert, count_only)
            },
        forall|k: int, l: int|
            0 <= k < l < selected_lines(m, lines, invert, count_only).len() ==> (
            #[trigger] selected_lines(m, lines, invert, count_only)[k]).0 < (
            #[trigger] selected_lines(m, lines, invert, count_only)[l]).0,
        forall|n: int|
            0 <= n < lines.len() && selects(m, #[trigger] lines[n], invert) ==> exists|k: int|
                0 <= k < selected_lines(m, lines, invert, count_only).len() && (
                #[trigger] selected_lines(m, lines, invert, count_only)[k]).0 == n + 1,
    decreases lines.len(),
{
    if lines.len() > 0 {
        let head = lines.drop_last();
        let before = selected_lines(m, head, invert, count_only);
        let all = selected_lines(m, lines, invert, count_only);
        law_run_lists_selected_lines_in_order(m, head, invert, count_only);
        assert forall|k: int| 0 <= k < all.len() implies {
            let entry = #[trigger] all[k];
            &&& 1 <= entry.0 <= lines.len()
            &&& selects(m, lines[entry.0 - 1], invert)
            &&& entry.1 == highlight_of(m, lines[entry.0 - 1], invert, count_only)
        } by {
            if k < before.len() {
                let entry = before[k];
                assert(all[k] == entry);
                assert(head[entry.0 - 1] == lines[entry.0 - 1]);
            }
        }
        assert forall|k: int, l: int| 0 <= k < l < all.len() implies (#[trigger] all[k]).0 < (
        #[trigger] all[l]).0 by {
            assert(all[k] == before[k]);
            if l < before.len() {
                assert(all[l] == before[l]);
            }
        }
        assert forall|n: int|
            0 <= n < lines.len() && selects(m, #[trigger] lines[n], invert) implies exists|k: int|
            0 <= k < all.len() && (#[trigger] all[k]).0 == n + 1 by {
            if n < head.len() {
                assert(head[n] == lines[n]);
                let k = choose|k: int| 0 <= k < before.len() && (#[trigger] before[k]).0 == n + 1;
                assert(all[k] == before[k]);
            } else {
                assert(all[all.len() - 1].0 == n + 1);
            }
        }
    }
}

} // verus!
