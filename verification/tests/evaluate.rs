use naan::evaluate::{
    evaluate_line, highlight_parts, search_lines, step, LineOutcome, LineReport, RunReport,
    RunTotals, SelectedLine,
};
use naan::matcher::{build_matcher, Span};

fn lines_of(texts: &[&str]) -> Vec<String> {
    texts.iter().map(|t| t.to_string()).collect()
}

fn hit(line_no: usize, start: usize, end: usize) -> SelectedLine {
    SelectedLine { line_no, highlight: Some(Span { start, end }) }
}

fn plain(line_no: usize) -> SelectedLine {
    SelectedLine { line_no, highlight: None }
}

#[test]
fn prints_matches_with_line_numbers() {
    let m = build_matcher("hello", false, false).unwrap();
    let report = search_lines(&m, &lines_of(&["hello", "world", "hello again"]), false, false);
    let numbers: Vec<usize> = report.selected.iter().map(|s| s.line_no).collect();
    assert_eq!(numbers, vec![1, 3]);
}

#[test]
fn count_works() {
    let m = build_matcher("a", false, false).unwrap();
    let report = search_lines(&m, &lines_of(&["a", "b", "a"]), false, true);
    assert_eq!(report.total, 2);
    assert_eq!(format!("{}\n", report.total), "2\n");
}

#[test]
fn literal_search_selects_lines_one_and_three() {
    let m = build_matcher("hello", false, false).unwrap();
    let lines = lines_of(&["hello", "world", "hello again"]);
    let report = search_lines(&m, &lines, false, false);
    assert_eq!(report, RunReport { total: 2, selected: vec![hit(1, 0, 5), hit(3, 0, 5)] });
    for entry in &report.selected {
        let span = entry.highlight.unwrap();
        assert_eq!(&lines[entry.line_no - 1][span.start..span.end], "hello");
    }
}

#[test]
fn count_only_computes_no_highlight() {
    let m = build_matcher("a", false, false).unwrap();
    let report = search_lines(&m, &lines_of(&["a", "b", "a"]), false, true);
    assert_eq!(report, RunReport { total: 2, selected: vec![plain(1), plain(3)] });
    assert_eq!(
        evaluate_line(&m, "a", false, true),
        LineOutcome { selected: true, highlight: None }
    );
}

#[test]
fn malformed_pattern_stops_before_any_line() {
    assert!(build_matcher("[unterminated", true, false).is_err());
}

#[test]
fn ignore_case_selects_and_highlights() {
    let m = build_matcher("hello", false, true).unwrap();
    assert_eq!(
        evaluate_line(&m, "Hello", false, false),
        LineOutcome { selected: true, highlight: Some(Span { start: 0, end: 5 }) }
    );
    let strict = build_matcher("hello", false, false).unwrap();
    assert_eq!(
        evaluate_line(&strict, "Hello", false, false),
        LineOutcome { selected: false, highlight: None }
    );
}

#[test]
fn inverted_search_selects_the_other_lines() {
    let m = build_matcher("x", false, false).unwrap();
    let report = search_lines(&m, &lines_of(&["a", "x", "b"]), true, false);
    assert_eq!(report, RunReport { total: 2, selected: vec![plain(1), plain(3)] });
}

#[test]
fn invert_complements_selection() {
    let m = build_matcher("o+", true, false).unwrap();
    for line in ["", "o", "foo", "bar", "b o b", "OOO"] {
        for count_only in [false, true] {
            let straight = evaluate_line(&m, line, false, count_only);
            let inverted = evaluate_line(&m, line, true, count_only);
            assert_eq!(inverted.selected, !straight.selected);
            assert_eq!(straight.selected, m.is_match(line));
            assert_eq!(inverted.highlight, None);
        }
    }
}

#[test]
fn literal_selection_is_substring_containment() {
    let patterns = ["", "a", "ab", "a.b", "(x)", "é", "\\d", "b$", "^a"];
    let lines = ["", "a", "ab", "ba.b", "axb", "f(x)", "café", "\\d5", "ab$", "^a", "5"];
    for p in patterns {
        let m = build_matcher(p, false, false).unwrap();
        for line in lines {
            let out = evaluate_line(&m, line, false, false);
            assert_eq!(out.selected, line.contains(p), "{:?} in {:?}", p, line);
            let inverted = evaluate_line(&m, line, true, false);
            assert_eq!(inverted.selected, !line.contains(p));
        }
    }
}

#[test]
fn literal_highlight_is_the_leftmost_occurrence() {
    let patterns = ["", "a", "ab", "a.b", "é", "zz"];
    let lines = ["", "a", "bab ab", "xa.b a.b", "caféé", "abab", "zzz"];
    for p in patterns {
        let m = build_matcher(p, false, false).unwrap();
        for line in lines {
            let out = evaluate_line(&m, line, false, false);
            match line.find(p) {
                Some(at) => {
                    let span = out.highlight.unwrap();
                    assert_eq!(span, Span { start: at, end: at + p.len() });
                    assert_eq!(&line[span.start..span.end], p);
                }
                None => assert_eq!(out.highlight, None),
            }
        }
    }
}

#[test]
fn ignore_case_matches_like_the_lowered_forms() {
    let patterns = ["Hello", "hello", "HELLO", "A.b", "x", ""];
    let lines = ["hello", "say HeLLo", "HELL", "a.B", "aXb", "", "@[`{"];
    for p in patterns {
        let loose = build_matcher(p, false, true).unwrap();
        let lowered = build_matcher(&p.to_ascii_lowercase(), false, false).unwrap();
        for line in lines {
            let a = evaluate_line(&loose, line, false, false);
            let b = evaluate_line(&lowered, &line.to_ascii_lowercase(), false, false);
            assert_eq!(a, b, "{:?} in {:?}", p, line);
            assert_eq!(a.selected, line.to_ascii_lowercase().contains(&p.to_ascii_lowercase()));
        }
    }
}

#[test]
fn ignore_case_folds_letters_beyond_ascii() {
    let loose = build_matcher("s", false, true).unwrap();
    assert!(evaluate_line(&loose, "\u{17f}", false, false).selected);
    assert_eq!("\u{17f}".to_lowercase(), "\u{17f}");
    let strict = build_matcher("s", false, false).unwrap();
    assert!(!evaluate_line(&strict, "\u{17f}", false, false).selected);
}

#[test]
fn only_the_first_match_is_highlighted() {
    let m = build_matcher("ab", false, false).unwrap();
    assert_eq!(
        evaluate_line(&m, "ab ab ab", false, false),
        LineOutcome { selected: true, highlight: Some(Span { start: 0, end: 2 }) }
    );
    assert_eq!(
        evaluate_line(&m, "xx ab ab", false, false).highlight,
        Some(Span { start: 3, end: 5 })
    );
}

#[test]
fn step_numbers_every_line_and_counts_selected_ones() {
    let m = build_matcher("a", false, false).unwrap();
    let mut totals = RunTotals::new();
    assert_eq!(totals, RunTotals { lines_seen: 0, selected: 0 });
    let first = step(&mut totals, &m, "a", false, false);
    assert_eq!(
        first,
        LineReport {
            line_no: 1,
            outcome: LineOutcome { selected: true, highlight: Some(Span { start: 0, end: 1 }) }
        }
    );
    let second = step(&mut totals, &m, "b", false, false);
    assert_eq!(
        second,
        LineReport { line_no: 2, outcome: LineOutcome { selected: false, highlight: None } }
    );
    assert_eq!(totals, RunTotals { lines_seen: 2, selected: 1 });
    let third = step(&mut totals, &m, "banana", false, true);
    assert_eq!(
        third,
        LineReport { line_no: 3, outcome: LineOutcome { selected: true, highlight: None } }
    );
    assert_eq!(totals, RunTotals { lines_seen: 3, selected: 2 });
}

#[test]
fn record_counts_lines_and_selections() {
    let mut totals = RunTotals::new();
    assert_eq!(totals.record(false), 1);
    assert_eq!(totals.record(true), 2);
    assert_eq!(totals.record(true), 3);
    assert_eq!(totals, RunTotals { lines_seen: 3, selected: 2 });
}

#[test]
fn total_is_the_number_of_selected_lines() {
    let m = build_matcher("[0-9]+", true, false).unwrap();
    let lines = lines_of(&["a1", "b", "22", "", "c3c", "dd"]);
    for invert in [false, true] {
        for count_only in [false, true] {
            let report = search_lines(&m, &lines, invert, count_only);
            let expected: Vec<usize> = (0..lines.len())
                .filter(|&i| evaluate_line(&m, &lines[i], invert, count_only).selected)
                .map(|i| i + 1)
                .collect();
            let listed: Vec<usize> = report.selected.iter().map(|s| s.line_no).collect();
            assert_eq!(listed, expected);
            assert_eq!(report.total, expected.len());
            assert_eq!(report.total, 3);
            for entry in &report.selected {
                let line = &lines[entry.line_no - 1];
                assert_eq!(entry.highlight, evaluate_line(&m, line, invert, count_only).highlight);
            }
            assert_eq!(report, search_lines(&m, &lines, invert, count_only));
        }
    }
    let straight = search_lines(&m, &lines, false, false);
    assert_eq!(straight.selected, vec![hit(1, 1, 2), hit(3, 0, 2), hit(5, 1, 2)]);
}

#[test]
fn empty_input_selects_nothing() {
    let m = build_matcher("a", false, false).unwrap();
    assert_eq!(search_lines(&m, &Vec::new(), false, false), RunReport { total: 0, selected: vec![] });
    assert_eq!(search_lines(&m, &Vec::new(), true, true), RunReport { total: 0, selected: vec![] });
}

#[test]
fn highlight_parts_cut_the_line_at_the_span() {
    assert_eq!(
        highlight_parts("say hello there", Span { start: 4, end: 9 }),
        ("say ", "hello", " there")
    );
    assert_eq!(highlight_parts("hello", Span { start: 0, end: 5 }), ("", "hello", ""));
    assert_eq!(highlight_parts("hello", Span { start: 2, end: 2 }), ("he", "", "llo"));
    assert_eq!(highlight_parts("", Span { start: 0, end: 0 }), ("", "", ""));
    assert_eq!(highlight_parts("héllo wörld", Span { start: 7, end: 13 }), ("héllo ", "wörld", ""));
}

#[test]
fn highlight_parts_follow_the_evaluated_span() {
    let m = build_matcher("wör", false, false).unwrap();
    let line = "héllo wörld";
    let span = evaluate_line(&m, line, false, false).highlight.unwrap();
    assert_eq!(highlight_parts(line, span), ("héllo ", "wör", "ld"));
}
