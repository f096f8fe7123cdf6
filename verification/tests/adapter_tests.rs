use sashiki::adapter::{build_lines, highlight_events, HighlightEvent, LineMeta};
use sashiki::highlight::highlight_style_for_capture;
use sashiki::theme;

fn names() -> Vec<String> {
    vec!["keyword".to_string(), "string".to_string(), "comment".to_string()]
}

fn spans_of(doc: &sashiki::adapter::HighlightedDoc, line: usize) -> Vec<(usize, usize, u32)> {
    doc.lines[line].spans.iter().map(|s| (s.start, s.end, s.style.color)).collect()
}

#[test]
fn lines_and_byte_ranges() {
    let (lines, metas) = build_lines("ab\r\ncdé\n\nx");
    let texts: Vec<&str> = lines.iter().map(|l| l.text.as_str()).collect();
    assert_eq!(texts, vec!["ab", "cdé", "", "x"]);
    assert!(lines.iter().all(|l| l.spans.is_empty()));
    assert_eq!(
        metas,
        vec![
            LineMeta { start: 0, end: 2 },
            LineMeta { start: 4, end: 8 },
            LineMeta { start: 9, end: 9 },
            LineMeta { start: 10, end: 11 },
        ]
    );
}

#[test]
fn empty_source_has_one_empty_line() {
    let (lines, metas) = build_lines("");
    assert_eq!(lines.len(), 1);
    assert_eq!(lines[0].text, "");
    assert_eq!(metas, vec![LineMeta { start: 0, end: 0 }]);
}

#[test]
fn spans_follow_the_innermost_highlight() {
    let source = "fn main\nlet s = \"hi\";";
    let events = vec![
        HighlightEvent::HighlightStart(0),
        HighlightEvent::Source { start: 0, end: 2 },
        HighlightEvent::HighlightEnd,
        HighlightEvent::Source { start: 2, end: 8 },
        HighlightEvent::HighlightStart(0),
        HighlightEvent::Source { start: 8, end: 11 },
        HighlightEvent::HighlightStart(1),
        HighlightEvent::Source { start: 16, end: 20 },
        HighlightEvent::HighlightEnd,
        HighlightEvent::HighlightEnd,
    ];
    let doc = highlight_events(source, &events, &names());
    assert_eq!(doc.lines.len(), 2);
    assert_eq!(spans_of(&doc, 0), vec![(0, 2, theme::BLUE)]);
    assert_eq!(spans_of(&doc, 1), vec![(0, 3, theme::BLUE), (8, 12, theme::GREEN)]);
    assert!(highlight_style_for_capture(0, &names()).bold);
}

#[test]
fn a_range_across_lines_is_split() {
    let source = "ab\ncd\r\nef";
    let events = vec![
        HighlightEvent::HighlightStart(2),
        HighlightEvent::Source { start: 1, end: 9 },
        HighlightEvent::HighlightEnd,
        HighlightEvent::Source { start: 0, end: 2 },
        HighlightEvent::HighlightStart(9),
        HighlightEvent::Source { start: 5, end: 5 },
        HighlightEvent::Source { start: 7, end: 8 },
    ];
    let doc = highlight_events(source, &events, &names());
    assert_eq!(spans_of(&doc, 0), vec![(1, 2, theme::TEXT_MUTED)]);
    assert_eq!(spans_of(&doc, 1), vec![(0, 2, theme::TEXT_MUTED)]);
    assert_eq!(spans_of(&doc, 2), vec![(0, 2, theme::TEXT_MUTED), (0, 1, theme::TEXT)]);
}
