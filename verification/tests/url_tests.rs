use sashiki::frame::{CellWidth, FrameCell, FrameRow};
use sashiki::urls::{detect_urls, url_at, urls_from_matches};

fn row(text: &str) -> FrameRow {
    FrameRow {
        cells: text
            .chars()
            .map(|ch| FrameCell { ch, width: CellWidth::Narrow, ..FrameCell::default() })
            .collect(),
        clusters: vec![],
        selection: None,
    }
}

#[test]
fn finds_addresses_and_drops_trailing_punctuation() {
    let rows = vec![row("see https://example.com. and http://a.b/c?d=1!"), row("nothing here"), row("x https://x.y")];
    let urls = detect_urls(&rows);
    let found: Vec<(&str, usize, usize, usize)> =
        urls.iter().map(|u| (u.url.as_str(), u.line, u.start_col, u.end_col)).collect();
    assert_eq!(
        found,
        vec![
            ("https://example.com", 0, 4, 22),
            ("http://a.b/c?d=1", 0, 29, 44),
            ("https://x.y", 2, 2, 12),
        ]
    );
    assert_eq!(url_at(&urls, 0, 4), Some(0));
    assert_eq!(url_at(&urls, 0, 22), Some(0));
    assert_eq!(url_at(&urls, 0, 23), None);
    assert_eq!(url_at(&urls, 0, 35), Some(1));
    assert_eq!(url_at(&urls, 2, 12), Some(2));
    assert_eq!(url_at(&urls, 1, 5), None);
}

#[test]
fn stops_at_quotes_and_brackets() {
    let urls = detect_urls(&vec![row("(https://ex.com/a) \"http://q.io/x\"")]);
    let found: Vec<&str> = urls.iter().map(|u| u.url.as_str()).collect();
    assert_eq!(found, vec!["https://ex.com/a", "http://q.io/x"]);
}

#[test]
fn bare_scheme_is_not_an_address() {
    assert!(detect_urls(&vec![row("https://... http://")]).is_empty());
}

#[test]
fn spacer_columns_keep_addresses_in_place() {
    let mut r = row("あ https://w.jp");
    r.cells.insert(1, FrameCell { ch: ' ', width: CellWidth::Spacer, ..FrameCell::default() });
    let urls = detect_urls(&vec![r]);
    assert_eq!(urls.len(), 1);
    assert_eq!((urls[0].start_col, urls[0].end_col), (3, 14));
}

#[test]
fn columns_come_from_byte_offsets() {
    let lines = vec!["éé https://a.bc.".chars().collect::<Vec<char>>()];
    let urls = urls_from_matches(&lines, &vec![vec![(5, 18)]]);
    assert_eq!(urls.len(), 1);
    assert_eq!(urls[0].url, "https://a.bc");
    assert_eq!((urls[0].start_col, urls[0].end_col), (3, 14));
    assert!(urls_from_matches(&lines, &vec![vec![(5, 12)]]).is_empty());
}
