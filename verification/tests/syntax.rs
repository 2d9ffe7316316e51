use rote::syntax::{insert_span, kind_for_capture, spans_from_captures};
use rote::{HighlightKind, HighlightSpan, Highlighter};

#[test]
fn highlights_basic_python() {
    let mut hl = Highlighter::python();
    let source = "def double(x):\n    return x * 2\n";
    let spans = hl.highlight(source);

    assert!(!spans.is_empty());
    // Sorted and non-overlapping.
    for pair in spans.windows(2) {
        assert!(pair[0].range.end <= pair[1].range.start);
    }

    let text_of = |s: &HighlightSpan| &source[s.range.clone()];
    assert!(spans.iter().any(|s| s.kind == HighlightKind::Keyword && text_of(s) == "def"));
    assert!(spans.iter().any(|s| s.kind == HighlightKind::Keyword && text_of(s) == "return"));
    assert!(spans.iter().any(|s| s.kind == HighlightKind::Function && text_of(s) == "double"));
    assert!(spans.iter().any(|s| s.kind == HighlightKind::Number && text_of(s) == "2"));
}

#[test]
fn insert_span_splits_around_overlap() {
    let mut spans = vec![HighlightSpan { range: 0..10, kind: HighlightKind::String }];
    insert_span(&mut spans, 3..6, HighlightKind::Keyword);

    assert_eq!(spans.len(), 3);
    assert_eq!(spans[0].range, 0..3);
    assert_eq!(spans[0].kind, HighlightKind::String);
    assert_eq!(spans[1].range, 3..6);
    assert_eq!(spans[1].kind, HighlightKind::Keyword);
    assert_eq!(spans[2].range, 6..10);
    assert_eq!(spans[2].kind, HighlightKind::String);
}

#[test]
fn capture_names_map_by_top_level_category() {
    assert_eq!(kind_for_capture("function.builtin"), Some(HighlightKind::Function));
    assert_eq!(kind_for_capture("method"), Some(HighlightKind::Function));
    assert_eq!(kind_for_capture("keyword"), Some(HighlightKind::Keyword));
    assert_eq!(kind_for_capture("string.special"), Some(HighlightKind::String));
    assert_eq!(kind_for_capture("constructor"), Some(HighlightKind::Type));
    assert_eq!(kind_for_capture("boolean"), Some(HighlightKind::Constant));
    assert_eq!(kind_for_capture("attribute"), Some(HighlightKind::Property));
    assert_eq!(kind_for_capture("punctuation.bracket"), Some(HighlightKind::Punctuation));
    assert_eq!(kind_for_capture("parameter"), Some(HighlightKind::Variable));
    assert_eq!(kind_for_capture("namespace"), Some(HighlightKind::Module));
    assert_eq!(kind_for_capture("operator"), Some(HighlightKind::Operator));
    assert_eq!(kind_for_capture("comment"), Some(HighlightKind::Comment));
    assert_eq!(kind_for_capture("number"), Some(HighlightKind::Number));
    assert_eq!(kind_for_capture("embedded"), None);
    assert_eq!(kind_for_capture(""), None);
    assert_eq!(kind_for_capture(".keyword"), None);
}

#[test]
fn later_spans_win_where_they_overlap() {
    let mut spans = Vec::new();
    insert_span(&mut spans, 0..4, HighlightKind::Variable);
    insert_span(&mut spans, 6..9, HighlightKind::Number);
    insert_span(&mut spans, 2..7, HighlightKind::Operator);
    let got: Vec<(std::ops::Range<usize>, HighlightKind)> = spans.iter().map(|s| (s.range.clone(), s.kind)).collect();
    assert_eq!(
        got,
        vec![
            (0..2, HighlightKind::Variable),
            (2..7, HighlightKind::Operator),
            (7..9, HighlightKind::Number),
        ]
    );
}

#[test]
fn empty_ranges_are_not_inserted() {
    let mut spans = vec![HighlightSpan { range: 0..5, kind: HighlightKind::String }];
    insert_span(&mut spans, 3..3, HighlightKind::Keyword);
    assert_eq!(spans.len(), 1);
    assert_eq!(spans[0].range, 0..5);
}

#[test]
fn spans_from_captures_skips_unknown_names() {
    let caps = vec![
        ("variable".to_string(), 0usize, 3usize),
        ("embedded".to_string(), 0, 10),
        ("function.call".to_string(), 0, 3),
        ("number".to_string(), 5, 6),
    ];
    let spans = spans_from_captures(&caps);
    assert_eq!(spans.len(), 2);
    assert_eq!(spans[0].range, 0..3);
    assert_eq!(spans[0].kind, HighlightKind::Function);
    assert_eq!(spans[1].range, 5..6);
    assert_eq!(spans[1].kind, HighlightKind::Number);
}

#[test]
fn highlighting_empty_source() {
    let mut hl = Highlighter::python();
    assert!(hl.highlight("").is_empty());
    let again = hl.highlight("x = 1\n");
    assert!(again.iter().any(|s| s.kind == HighlightKind::Number && s.range == (4..5)));
}

#[test]
fn spans_stay_within_the_source() {
    let mut hl = Highlighter::python();
    let source = "s = f\"{x}\"  # é\nprint(s)";
    for span in hl.highlight(source) {
        assert!(span.range.start < span.range.end);
        assert!(span.range.end <= source.len());
    }
}
