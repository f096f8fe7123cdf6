use sashiki::buffer::{BufferError, TextBuffer, VirtualViewport};

#[test]
fn test_new_buffer() {
    let buffer = TextBuffer::new();
    assert!(buffer.is_empty());
    assert_eq!(buffer.len_lines(), 1);
    assert!(!buffer.is_modified());
}

#[test]
fn test_from_str() {
    let buffer = TextBuffer::from_str("Hello\nWorld");
    assert_eq!(buffer.len_lines(), 2);
    assert_eq!(buffer.line(0).unwrap(), "Hello\n");
    assert_eq!(buffer.line(1).unwrap(), "World");
}

#[test]
fn test_insert() {
    let mut buffer = TextBuffer::from_str("Hello");
    buffer.insert(5, " World");
    assert_eq!(buffer.text(), "Hello World");
    assert!(buffer.is_modified());
}

#[test]
fn test_remove() {
    let mut buffer = TextBuffer::from_str("Hello World");
    buffer.remove(5, 11);
    assert_eq!(buffer.text(), "Hello");
    assert!(buffer.is_modified());
}

#[test]
fn test_lines_range() {
    let buffer = TextBuffer::from_str("Line1\nLine2\nLine3\nLine4\nLine5");
    let lines = buffer.lines_range(1, 4);
    assert_eq!(lines.len(), 3);
    assert_eq!(lines[0], "Line2\n");
    assert_eq!(lines[1], "Line3\n");
    assert_eq!(lines[2], "Line4\n");
}

#[test]
fn test_line_out_of_bounds() {
    let buffer = TextBuffer::from_str("Single line");
    assert!(buffer.line(10).is_err());
}

#[test]
fn test_virtual_viewport() {
    let buffer = TextBuffer::from_str("Line1\nLine2\nLine3\nLine4\nLine5\nLine6\nLine7\nLine8\nLine9\nLine10");
    let mut viewport = VirtualViewport::new(0, 3);

    let visible = viewport.get_visible_lines(&buffer);
    assert_eq!(visible.len(), 3);
    assert_eq!(visible[0].0, 0);
    assert_eq!(visible[2].0, 2);

    viewport.scroll_by(2, buffer.len_lines());
    let visible = viewport.get_visible_lines(&buffer);
    assert_eq!(visible[0].0, 2);

    viewport.ensure_visible(8, buffer.len_lines());
    let visible = viewport.get_visible_lines(&buffer);
    assert!(visible.iter().any(|(i, _)| *i == 8));
}

#[test]
fn test_large_file_simulation() {
    let lines: String = (0..100_000).map(|i| format!("Line {}\n", i)).collect();
    let buffer = TextBuffer::from_str(&lines);

    assert_eq!(buffer.len_lines(), 100_001);

    let viewport = VirtualViewport::new(50_000, 50);
    let visible = viewport.get_visible_lines(&buffer);
    assert_eq!(visible.len(), 50);
    assert_eq!(visible[0].0, 50_000);
}

#[test]
fn buffer_crlf_and_cr_breaks() {
    let buffer = TextBuffer::from_str("a\r\nb\rc");
    assert_eq!(buffer.len_lines(), 3);
    assert_eq!(buffer.line_to_string(0).unwrap(), "a\r\n");
    assert_eq!(buffer.line_to_string(1).unwrap(), "b\r");
    assert_eq!(buffer.line_to_string(2).unwrap(), "c");
    assert!(matches!(buffer.line_to_string(3), Err(BufferError::LineOutOfBounds(3))));
}

#[test]
fn buffer_insert_then_remove_restores() {
    let mut buffer = TextBuffer::from_str("abcdef");
    buffer.insert(2, "XYZ");
    assert_eq!(buffer.text(), "abXYZcdef");
    buffer.remove(2, 5);
    assert_eq!(buffer.text(), "abcdef");
}

#[test]
fn buffer_lines_range_clamps() {
    let buffer = TextBuffer::from_str("a\nb\n");
    assert_eq!(buffer.lines_range(1, 99), vec!["b\n".to_string(), String::new()]);
    assert!(buffer.lines_range(5, 2).is_empty());
}

#[test]
fn viewport_scroll_clamps() {
    let mut viewport = VirtualViewport::new(5, 4);
    assert_eq!(viewport.end_line(7), 7);
    viewport.scroll_by(-10, 20);
    assert_eq!(viewport.start_line, 0);
    viewport.scroll_by(100, 20);
    assert_eq!(viewport.start_line, 16);
    viewport.scroll_to(3, 2);
    assert_eq!(viewport.start_line, 0);
    viewport.ensure_visible(1, 20);
    assert_eq!(viewport.start_line, 0);
    viewport.ensure_visible(10, 20);
    assert_eq!(viewport.start_line, 7);
}

#[test]
fn cloned_buffer_keeps_text() {
    let mut b = TextBuffer::from_str("one\ntwo");
    b.insert(0, "x");
    let c = b.clone();
    assert_eq!(c.text(), b.text());
    assert_eq!(c.text(), "xone\ntwo");
    assert_eq!(c.is_modified(), b.is_modified());
}
