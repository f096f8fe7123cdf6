use sashiki::dialog::{opened_worktrees, project_name};
use sashiki::fileview::{
    diff_source, highlight_old_separately, is_binary_prefix, new_content_source, old_content_source,
    open_mode, resolve_selection, select_file, selection_full_path, ChangeSection, ContentSource, DiffSource,
    OpenMode, SelectionState,
};
use sashiki::git::{ChangeType, ChangedFile, GitError, Worktree};
use sashiki::highlight::{
    capture_names_for, extension, highlight_style_for_capture, LanguageInfo, LanguageRegistry,
};
use sashiki::lsp::{definition_location, definition_target, document_url, DefinitionResponse, Location, LocationLink};
use sashiki::theme;
use sashiki::tree::{tree_rows, TreeRow};

fn dir(path: &str, name: &str, depth: usize, expanded: bool) -> (String, String, usize, bool) {
    (path.to_string(), name.to_string(), depth, expanded)
}

fn as_dir(row: &TreeRow) -> Option<(String, String, usize, bool)> {
    match row {
        TreeRow::Dir { path, name, depth, expanded } => Some((path.clone(), name.clone(), *depth, *expanded)),
        TreeRow::File { .. } => None,
    }
}

fn as_file(row: &TreeRow) -> Option<(usize, String, usize)> {
    match row {
        TreeRow::File { index, name, depth } => Some((*index, name.clone(), *depth)),
        TreeRow::Dir { .. } => None,
    }
}

fn strings(v: &[&str]) -> Vec<String> {
    v.iter().map(|s| s.to_string()).collect()
}

#[test]
fn tree_lists_directories_before_files() {
    let paths = strings(&["b.rs", "src/main.rs", "a.rs", "docs/x.md"]);
    let rows = tree_rows(&paths, &Vec::new());
    assert_eq!(rows.len(), 4);
    assert_eq!(as_dir(&rows[0]), Some(dir("docs", "docs", 0, false)));
    assert_eq!(as_dir(&rows[1]), Some(dir("src", "src", 0, false)));
    assert_eq!(as_file(&rows[2]), Some((0, "b.rs".to_string(), 0)));
    assert_eq!(as_file(&rows[3]), Some((2, "a.rs".to_string(), 0)));
}

#[test]
fn tree_opens_expanded_directories() {
    let paths = strings(&["src/main.rs", "src/ui/view.rs", "README.md"]);
    let rows = tree_rows(&paths, &strings(&["src", "src/ui"]));
    assert_eq!(rows.len(), 5);
    assert_eq!(as_dir(&rows[0]), Some(dir("src", "src", 0, true)));
    assert_eq!(as_dir(&rows[1]), Some(dir("src/ui", "ui", 1, true)));
    assert_eq!(as_file(&rows[2]), Some((1, "view.rs".to_string(), 2)));
    assert_eq!(as_file(&rows[3]), Some((0, "main.rs".to_string(), 1)));
    assert_eq!(as_file(&rows[4]), Some((2, "README.md".to_string(), 0)));
}

#[test]
fn tree_lists_each_directory_once() {
    let paths = strings(&["a/1", "a/2", "a/3"]);
    let rows = tree_rows(&paths, &Vec::new());
    assert_eq!(rows.len(), 1);
    assert_eq!(as_dir(&rows[0]), Some(dir("a", "a", 0, false)));
}

#[test]
fn tree_of_nothing_is_empty() {
    assert!(tree_rows(&Vec::new(), &strings(&["src"])).is_empty());
}

fn changed(path: &str, staged: Option<ChangeType>, unstaged: Option<ChangeType>) -> ChangedFile {
    ChangedFile { path: path.to_string(), staged_change: staged, unstaged_change: unstaged }
}

#[test]
fn selection_keeps_a_given_section() {
    let files = vec![changed("a.rs", Some(ChangeType::Modified), None)];
    let r = resolve_selection(&files, "a.rs", Some(ChangeSection::Unstaged), Some(ChangeType::Added));
    assert_eq!(r, (Some(ChangeSection::Unstaged), Some(ChangeType::Added)));
}

#[test]
fn selection_prefers_unstaged_changes() {
    let files = vec![
        changed("b.rs", Some(ChangeType::Added), None),
        changed("a.rs", Some(ChangeType::Modified), Some(ChangeType::Deleted)),
    ];
    assert_eq!(
        resolve_selection(&files, "a.rs", None, None),
        (Some(ChangeSection::Unstaged), Some(ChangeType::Deleted))
    );
    assert_eq!(
        resolve_selection(&files, "b.rs", None, None),
        (Some(ChangeSection::Staged), Some(ChangeType::Added))
    );
    assert_eq!(resolve_selection(&files, "c.rs", None, Some(ChangeType::Renamed)), (None, Some(ChangeType::Renamed)));
}

#[test]
fn full_path_joins_the_worktree() {
    assert_eq!(selection_full_path(Some("/w"), "src/a.rs"), "/w/src/a.rs");
    assert_eq!(selection_full_path(None, "src/a.rs"), "src/a.rs");
}

#[test]
fn diff_and_content_sources() {
    assert_eq!(diff_source(Some(ChangeSection::Staged), Some(ChangeType::Added)), DiffSource::Staged);
    assert_eq!(diff_source(Some(ChangeSection::Unstaged), Some(ChangeType::Added)), DiffSource::AddedFile);
    assert_eq!(diff_source(Some(ChangeSection::Unstaged), Some(ChangeType::Modified)), DiffSource::Unstaged);
    assert_eq!(diff_source(None, Some(ChangeType::Deleted)), DiffSource::DeletedFile);
    assert_eq!(diff_source(None, None), DiffSource::WorkingTree);
    assert_eq!(new_content_source(Some(ChangeSection::Staged), Some(ChangeType::Modified)), ContentSource::Index);
    assert_eq!(new_content_source(None, Some(ChangeType::Deleted)), ContentSource::Skip);
    assert_eq!(new_content_source(None, None), ContentSource::WorkingFile);
    assert_eq!(old_content_source(Some(ChangeSection::Unstaged), None, true), ContentSource::Index);
    assert_eq!(old_content_source(Some(ChangeSection::Staged), None, true), ContentSource::Head);
    assert_eq!(old_content_source(None, Some(ChangeType::Added), true), ContentSource::Skip);
    assert_eq!(old_content_source(None, None, false), ContentSource::Skip);
    assert!(highlight_old_separately(Some(ChangeType::Modified), true));
    assert!(!highlight_old_separately(Some(ChangeType::Added), true));
}

#[test]
fn open_modes() {
    assert_eq!(open_mode(Some(ChangeType::Deleted), true, false), OpenMode::DeletedWithDiff);
    assert_eq!(open_mode(Some(ChangeType::Deleted), false, true), OpenMode::Empty);
    assert_eq!(open_mode(None, true, true), OpenMode::DiffAndContent);
    assert_eq!(open_mode(None, true, false), OpenMode::DiffFromFile);
    assert_eq!(open_mode(None, false, true), OpenMode::Content);
    assert_eq!(open_mode(None, false, false), OpenMode::File);
}

#[test]
fn binary_detection() {
    assert!(!is_binary_prefix(b""));
    assert!(!is_binary_prefix(b"fn main() {}\n"));
    assert!(is_binary_prefix(&[0x7f, b'E', b'L', b'F', 0, 0, 1, 0]));
    assert!(is_binary_prefix(b"%PDF-1.7"));
    assert!(is_binary_prefix(&[0x89, b'P', b'N', b'G', 13, 10]));
    assert!(!is_binary_prefix(&[0xFF, 0xFE, b'a', 0]));
}

#[test]
fn selecting_a_file_records_it_and_opens_the_view() {
    let files = vec![changed("src/a.rs", Some(ChangeType::Modified), Some(ChangeType::Modified))];
    let mut state = SelectionState { selected_path: None, selected_section: None, show_file_view: false };
    let sel = select_file(&mut state, &files, Some("/w"), "src/a.rs", None, Some(ChangeType::Deleted));
    assert_eq!(sel.section, Some(ChangeSection::Unstaged));
    assert_eq!(sel.change_type, Some(ChangeType::Modified));
    assert_eq!(sel.full_path, "/w/src/a.rs");
    assert_eq!(sel.diff, DiffSource::Unstaged);
    assert_eq!(state.selected_path.as_deref(), Some("src/a.rs"));
    assert_eq!(state.selected_section, Some(ChangeSection::Unstaged));
    assert!(state.show_file_view);
}

#[test]
fn capture_styles() {
    let names = strings(&["keyword", "comment", "nothing"]);
    let k = highlight_style_for_capture(0, &names);
    assert_eq!((k.color, k.bold, k.italic), (theme::BLUE, true, false));
    let c = highlight_style_for_capture(1, &names);
    assert_eq!((c.color, c.bold, c.italic), (theme::TEXT_MUTED, false, true));
    let n = highlight_style_for_capture(2, &names);
    assert_eq!((n.color, n.bold, n.italic), (theme::TEXT, false, false));
    let out = highlight_style_for_capture(7, &names);
    assert_eq!(out.color, theme::TEXT);
}

const RUST_EXTS: &[&str] = &["rs"];
const TOML_EXTS: &[&str] = &["toml"];
const NO_NAMES: &[&str] = &[];
const EXTRA: &[&str] = &["lifetime"];

fn rust() -> LanguageInfo {
    LanguageInfo { id: "rust", extensions: RUST_EXTS, extra_capture_names: EXTRA, lsp: None }
}

fn toml() -> LanguageInfo {
    LanguageInfo { id: "toml", extensions: TOML_EXTS, extra_capture_names: NO_NAMES, lsp: None }
}

#[test]
fn capture_names_add_the_language_own() {
    let names = capture_names_for(&rust());
    assert_eq!(names.first().map(|s| s.as_str()), Some("attribute"));
    assert_eq!(names.last().map(|s| s.as_str()), Some("lifetime"));
    assert_eq!(capture_names_for(&toml()).len() + 1, names.len());
}

#[test]
fn builtin_languages_by_extension() {
    let registry = LanguageRegistry::new();
    assert_eq!(registry.languages.len(), 10);
    assert_eq!(registry.detect("src/lib.rs").map(|l| l.id), Some("rust"));
    assert_eq!(registry.detect("App.TSX").map(|l| l.id), Some("typescriptreact"));
    assert_eq!(registry.detect("index.mjs").map(|l| l.id), Some("javascript"));
    assert_eq!(registry.detect("run.sh").map(|l| l.id), Some("bash"));
    assert_eq!(registry.detect("page.htm").map(|l| l.id), Some("html"));
    assert!(registry.detect("data.json").is_none());
    let python = registry.detect("main.py").unwrap();
    assert_eq!(python.lsp.map(|s| s.command), Some("pyright-langserver"));
    let html = registry.detect("a.html").unwrap();
    assert_eq!(capture_names_for(html).last().map(|s| s.as_str()), Some("tag.error"));
}

#[test]
fn extensions_and_detection() {
    assert_eq!(extension("src/main.rs"), Some("rs".to_string()));
    assert_eq!(extension("archive.tar.gz"), Some("gz".to_string()));
    assert_eq!(extension(".bashrc"), None);
    assert_eq!(extension("Makefile"), None);
    let registry = LanguageRegistry { languages: vec![rust(), toml()] };
    assert_eq!(registry.detect("a/b/MAIN.RS").map(|l| l.id), Some("rust"));
    assert_eq!(registry.detect("Cargo.toml").map(|l| l.id), Some("toml"));
    assert!(registry.detect("notes.txt").is_none());
    assert!(registry.detect("Makefile").is_none());
}

fn worktree(path: &str) -> Worktree {
    Worktree { name: "main".to_string(), path: path.to_string(), branch: None, is_main: true, locked: false }
}

#[test]
fn opening_a_project() {
    let ok = opened_worktrees(Ok(()), Ok(vec![worktree("/p")])).unwrap();
    assert_eq!(ok.len(), 1);
    assert_eq!(
        opened_worktrees(Err(GitError::Exec("no git".to_string())), Ok(vec![])).unwrap_err(),
        "Failed to open repository: Git command not found or failed to execute: no git"
    );
    assert_eq!(
        opened_worktrees(Ok(()), Err(GitError::Command("bad".to_string()))).unwrap_err(),
        "Failed to list worktrees: Git command failed: bad"
    );
    assert_eq!(opened_worktrees(Ok(()), Ok(vec![])).unwrap_err(), "No worktrees found in repository");
    assert_eq!(project_name("/home/me/sashiki"), "sashiki");
    assert_eq!(project_name("/"), "project");
}

#[test]
fn definition_answers() {
    let scalar = DefinitionResponse::Scalar(Location { uri: "file:///w/src/a.rs".to_string(), line: 4 });
    assert_eq!(definition_location(&scalar), Some(("file:///w/src/a.rs".to_string(), 4)));
    let links = DefinitionResponse::Link(vec![
        LocationLink { target_uri: "file:///x.rs".to_string(), target_selection_line: 9 },
        LocationLink { target_uri: "file:///y.rs".to_string(), target_selection_line: 1 },
    ]);
    assert_eq!(definition_location(&links), Some(("file:///x.rs".to_string(), 9)));
    assert_eq!(definition_location(&DefinitionResponse::Array(vec![])), None);
    assert_eq!(definition_target("file:///w/src/a.rs", 4, Some("/w")), Some(("src/a.rs".to_string(), 5)));
    assert_eq!(definition_target("file:///other/a.rs", 0, Some("/w")), Some(("/other/a.rs".to_string(), 1)));
    assert_eq!(definition_target("not a url", 0, None), None);
}

#[test]
fn document_urls() {
    assert_eq!(document_url("/w/src/a.rs"), Some("file:///w/src/a.rs".to_string()));
    assert_eq!(document_url("relative.rs"), None);
}
