use sashiki::action::{Action, ActionQueue, PathFormat};

#[test]
fn test_action_creation() {
    let insert = Action::insert_path("/path/to/file");
    assert!(matches!(insert, Action::InsertToTerminal(_)));

    let location = Action::insert_location("file.rs", 42);
    if let Action::InsertToTerminal(s) = location {
        assert_eq!(s, "file.rs:42");
    } else {
        panic!("Expected InsertToTerminal");
    }
}

#[test]
fn test_action_needs_terminal() {
    assert!(Action::InsertToTerminal("test".into()).needs_terminal());
    assert!(Action::ExecuteInTerminal("test".into()).needs_terminal());
    assert!(!Action::CopyToClipboard("test".into()).needs_terminal());
    assert!(!Action::ShowDiff(String::new()).needs_terminal());
}

#[test]
fn test_path_format_absolute() {
    let format = PathFormat::Absolute;
    let path = "/home/user/project/src/main.rs";
    let result = format.format_path(path, None, None);
    assert_eq!(result, "/home/user/project/src/main.rs");
}

#[test]
fn test_path_format_relative() {
    let format = PathFormat::Relative;
    let path = "/home/user/project/src/main.rs";
    let base = "/home/user/project";
    let result = format.format_path(path, Some(base), None);
    assert_eq!(result, "src/main.rs");
}

#[test]
fn test_path_format_filename() {
    let format = PathFormat::FileName;
    let path = "/home/user/project/src/main.rs";
    let result = format.format_path(path, None, None);
    assert_eq!(result, "main.rs");
}

#[test]
fn test_path_format_with_line() {
    let format = PathFormat::WithLine;
    let path = "/home/user/project/src/main.rs";
    let base = "/home/user/project";
    let result = format.format_path(path, Some(base), Some(42));
    assert_eq!(result, "src/main.rs:42");
}

#[test]
fn test_path_format_with_spaces() {
    let format = PathFormat::Absolute;
    let path = "/home/user/my project/src/main.rs";
    let result = format.format_path(path, None, None);
    assert_eq!(result, "\"/home/user/my project/src/main.rs\"");
}

#[test]
fn test_action_queue() {
    let mut queue = ActionQueue::new();
    assert!(!queue.has_pending());

    queue.push(Action::InsertToTerminal("test".into()));
    queue.push(Action::Noop); // Should be ignored
    queue.push(Action::CopyToClipboard("copy".into()));

    assert!(queue.has_pending());

    let actions = queue.take();
    assert_eq!(actions.len(), 2);
    assert!(!queue.has_pending());
}

#[test]
fn path_format_relative_outside_base_keeps_path() {
    let result = PathFormat::Relative.format_path("/other/file.rs", Some("/home/user/project"), None);
    assert_eq!(result, "/other/file.rs");
}

#[test]
fn path_format_with_line_without_line_or_base() {
    assert_eq!(PathFormat::WithLine.format_path("/a/b.rs", None, None), "/a/b.rs");
    assert_eq!(PathFormat::WithLine.format_path("/a/b.rs", None, Some(7)), "/a/b.rs:7");
}

#[test]
fn path_format_filename_of_root_falls_back_to_path() {
    assert_eq!(PathFormat::FileName.format_path("/", None, None), "/");
    assert_eq!(PathFormat::FileName.format_path("/a/..", None, None), "/a/..");
}

#[test]
fn path_format_default_is_absolute() {
    assert_eq!(PathFormat::default(), PathFormat::Absolute);
}

#[test]
fn insert_location_formats_zero_and_large_numbers() {
    match Action::insert_location("x", 0) {
        Action::InsertToTerminal(s) => assert_eq!(s, "x:0"),
        _ => panic!("expected insert"),
    }
    match Action::insert_location("x", 1234567) {
        Action::InsertToTerminal(s) => assert_eq!(s, "x:1234567"),
        _ => panic!("expected insert"),
    }
}
