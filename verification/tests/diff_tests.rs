use sashiki::diff::{calculate_diff, to_side_by_side, DiffLineType};

#[test]
fn test_simple_diff() {
    let old = "line1\nline2\nline3\n";
    let new = "line1\nmodified\nline3\n";

    let result = calculate_diff(old, new);

    assert_eq!(result.stats.unchanged, 2);
    assert_eq!(result.stats.deletions, 1);
    assert_eq!(result.stats.additions, 1);
}

#[test]
fn test_no_changes() {
    let text = "same\ncontent\n";
    let result = calculate_diff(text, text);

    assert_eq!(result.stats.unchanged, 2);
    assert_eq!(result.stats.deletions, 0);
    assert_eq!(result.stats.additions, 0);
}

#[test]
fn test_all_new() {
    let old = "";
    let new = "new line\n";

    let result = calculate_diff(old, new);

    assert_eq!(result.stats.additions, 1);
    assert_eq!(result.stats.deletions, 0);
}

#[test]
fn test_all_deleted() {
    let old = "old line\n";
    let new = "";

    let result = calculate_diff(old, new);

    assert_eq!(result.stats.additions, 0);
    assert_eq!(result.stats.deletions, 1);
}

#[test]
fn test_side_by_side() {
    let old = "line1\nold\nline3\n";
    let new = "line1\nnew\nline3\n";

    let result = calculate_diff(old, new);
    let sbs = to_side_by_side(&result);

    assert_eq!(sbs.len(), 3);
    assert_eq!(sbs[0].left_content, Some("line1\n".to_string()));
    assert_eq!(sbs[0].right_content, Some("line1\n".to_string()));
    assert_eq!(sbs[1].left_content, Some("old\n".to_string()));
    assert_eq!(sbs[1].right_content, Some("new\n".to_string()));
    assert_eq!(sbs[1].left_type, DiffLineType::Delete);
    assert_eq!(sbs[1].right_type, DiffLineType::Insert);
    assert_eq!(sbs[2].left_content, Some("line3\n".to_string()));
    assert_eq!(sbs[2].right_content, Some("line3\n".to_string()));
}

#[test]
fn test_large_diff_performance() {
    let old: String = (0..10_000).map(|i| format!("line {}\n", i)).collect();
    let new: String = (0..10_000)
        .map(|i| {
            if i % 100 == 0 {
                format!("modified line {}\n", i)
            } else {
                format!("line {}\n", i)
            }
        })
        .collect();

    let start = std::time::Instant::now();
    let result = calculate_diff(&old, &new);
    let elapsed = start.elapsed();

    assert!(elapsed.as_millis() < 200);
    assert!(result.stats.additions > 0);
    assert!(result.stats.deletions > 0);
}

#[test]
fn diff_lines_are_numbered_per_side() {
    let result = calculate_diff("a\nb\nc\n", "a\nx\ny\nc\n");
    let nums: Vec<(Option<usize>, Option<usize>)> =
        result.lines.iter().map(|l| (l.old_line_num, l.new_line_num)).collect();
    assert_eq!(
        nums,
        vec![(Some(1), Some(1)), (Some(2), None), (None, Some(2)), (None, Some(3)), (Some(3), Some(4))]
    );
    assert_eq!(result.stats.additions + result.stats.deletions + result.stats.unchanged, result.lines.len());
}

#[test]
fn side_by_side_pads_the_shorter_run() {
    let result = calculate_diff("a\nb\nc\n", "a\nx\ny\nc\n");
    let sbs = to_side_by_side(&result);
    assert_eq!(sbs.len(), 4);
    assert_eq!(sbs[1].left_line_num, Some(2));
    assert_eq!(sbs[1].right_line_num, Some(2));
    assert_eq!(sbs[2].left_content, None);
    assert_eq!(sbs[2].left_type, DiffLineType::Equal);
    assert_eq!(sbs[2].right_content, Some("y\n".to_string()));
    assert_eq!(sbs[2].right_type, DiffLineType::Insert);
}

#[test]
fn side_by_side_lone_insertion_stands_right() {
    let result = calculate_diff("a\n", "a\nb\n");
    let sbs = to_side_by_side(&result);
    assert_eq!(sbs.len(), 2);
    assert_eq!(sbs[1].left_line_num, None);
    assert_eq!(sbs[1].right_line_num, Some(2));
    assert_eq!(sbs[1].right_type, DiffLineType::Insert);
}

#[test]
fn columns_read_as_old_and_new_text() {
    let old = "a\nb\nc\nd\ne\n";
    let new = "a\nx\ny\nz\nc\ne\nf\n";
    let rows = to_side_by_side(&calculate_diff(old, new));
    let left: String = rows.iter().filter_map(|r| r.left_content.clone()).collect();
    let right: String = rows.iter().filter_map(|r| r.right_content.clone()).collect();
    assert_eq!(left, old);
    assert_eq!(right, new);
}

#[test]
fn diff_lines_rebuild_both_texts() {
    let old = "a\nb\nc\nd";
    let new = "a\nx\nc\nd\ne\n";
    let r = sashiki::diff::calculate_diff(old, new);
    let old_side: String = r
        .lines
        .iter()
        .filter(|l| l.line_type != sashiki::diff::DiffLineType::Insert)
        .map(|l| l.content.clone())
        .collect();
    let new_side: String = r
        .lines
        .iter()
        .filter(|l| l.line_type != sashiki::diff::DiffLineType::Delete)
        .map(|l| l.content.clone())
        .collect();
    assert_eq!(old_side, old);
    assert_eq!(new_side, new);
}
