//! What is read to show a selected file: in which section of the changes it
//! is shown, which diff and which contents are fetched, how the file view
//! opens them, and whether a file is binary.

use vstd::prelude::*;
use crate::git::{changed_views, ChangeType, ChangedFile, ChangedFileView};
use crate::path::{join, join_path, path_eq, same_path};
use crate::text::{chars_of, string_from_chars};

verus! {

/// The section of the changes a file is shown from.
#[derive(Debug, Clone, Copy, PartialEq, Eq, Structural)]
pub enum ChangeSection {
    Staged,
    Unstaged,
}

/// The first changed file at path `p`.
pub open spec fn find_changed(files: Seq<ChangedFileView>, p: Seq<char>) -> Option<int>
    decreases files.len(),
{
    if files.len() == 0 {
        None
    } else {
        match find_changed(files.drop_last(), p) {
            Some(i) => Some(i),
            None => if same_path(files.last().path, p) { Some(files.len() - 1) } else { None },
        }
    }
}

/// The first match is a match, and nothing before it matches.
pub proof fn lemma_find_changed(files: Seq<ChangedFileView>, p: Seq<char>)
    ensures
        match find_changed(files, p) {
            Some(i) => 0 <= i < files.len() && same_path(files[i].path, p)
                && forall|j: int| 0 <= j < i ==> !same_path(#[trigger] files[j].path, p),
            None => forall|j: int| 0 <= j < files.len() ==> !same_path(#[trigger] files[j].path, p),
        },
    decreases files.len(),
{
    if files.len() > 0 {
        lemma_find_changed(files.drop_last(), p);
        assert forall|j: int| 0 <= j < files.len() - 1 implies files.drop_last()[j] == files[j] by {}
    }
}

/// The section and change type a file is shown with. A given section is
/// kept; without one (a file picked from the list of all files) the file's
/// git status decides: unstaged changes first, then staged ones.
pub open spec fn selection_of(
    files: Seq<ChangedFileView>,
    path: Seq<char>,
    section: Option<ChangeSection>,
    change_type: Option<ChangeType>,
) -> (Option<ChangeSection>, Option<ChangeType>) {
    if section is Some {
        (section, change_type)
    } else {
        match find_changed(files, path) {
            Some(i) => if files[i].unstaged_change is Some {
                (Some(ChangeSection::Unstaged), files[i].unstaged_change)
            } else if files[i].staged_change is Some {
                (Some(ChangeSection::Staged), files[i].staged_change)
            } else {
                (None, change_type)
            },
            None => (None, change_type),
        }
    }
}

/// The section and change type a file is shown with.
pub fn resolve_selection(
    changed: &Vec<ChangedFile>,
    path: &str,
    section: Option<ChangeSection>,
    change_type: Option<ChangeType>,
) -> (r: (Option<ChangeSection>, Option<ChangeType>))
    ensures
        r == selection_of(changed_views(changed@), path@, section, change_type),
{
    if section.is_some() {
        return (section, change_type);
    }
    let ghost files = changed_views(changed@);
    let p = chars_of(path);
    let mut i: usize = 0;
    while i < changed.len()
        invariant
            files == changed_views(changed@),
            section is None,
            p@ == path@,
            i <= changed@.len(),
            forall|j: int| 0 <= j < i ==> !same_path(#[trigger] files[j].path, path@),
        decreases changed@.len() - i,
    {
        assert(files[i as int] == changed@[i as int]@);
        if path_eq(&chars_of(changed[i].path.as_str()), &p) {
            assert(same_path(files[i as int].path, path@));
            proof {
                lemma_find_changed(files, path@);
                match find_changed(files, path@) {
                    Some(k) => {
                        if k < i {
                            assert(!same_path(files[k].path, path@));
                        }
                        if k > i {
                            assert(!same_path(files[i as int].path, path@));
                        }
                    },
                    None => {
                        assert(!same_path(files[i as int].path, path@));
                    },
                }
            }
            let f = &changed[i];
            if f.unstaged_change.is_some() {
                return (Some(ChangeSection::Unstaged), f.unstaged_change);
            } else if f.staged_change.is_some() {
                return (Some(ChangeSection::Staged), f.staged_change);
            } else {
                return (None, change_type);
            }
        }
        i += 1;
    }
    proof {
        lemma_find_changed(files, path@);
    }
    (None, change_type)
}

/// The file's path on disk: joined to the active worktree when there is one.
pub fn selection_full_path(worktree: Option<&str>, path: &str) -> (p: String)
    ensures
        p@ == match worktree {
            Some(w) => join_path(w@, path@),
            None => path@,
        },
{
    match worktree {
        Some(w) => string_from_chars(&join(&chars_of(w), &chars_of(path))),
        None => path.to_owned(),
    }
}

/// What the window shows as selected: the selected file and its section,
/// and whether the file view is open.
#[derive(Debug, Clone)]
pub struct SelectionState {
    pub selected_path: Option<String>,
    pub selected_section: Option<ChangeSection>,
    pub show_file_view: bool,
}

/// What a file selection has settled: the section and change type it is
/// shown with, its path on disk, and the diff to fetch for it.
#[derive(Debug, Clone)]
pub struct FileSelection {
    pub section: Option<ChangeSection>,
    pub change_type: Option<ChangeType>,
    pub full_path: String,
    pub diff: DiffSource,
}

/// Selects the file at `path` (relative to the worktree): the section and
/// change type come from [`resolve_selection`], the selection state records
/// the path and that section and opens the file view, and the result says
/// what to read for it. The view shows the file whatever the reads give.
pub fn select_file(
    state: &mut SelectionState,
    changed: &Vec<ChangedFile>,
    worktree: Option<&str>,
    path: &str,
    section: Option<ChangeSection>,
    change_type: Option<ChangeType>,
) -> (r: FileSelection)
    ensures
        (r.section, r.change_type) == selection_of(changed_views(changed@), path@, section, change_type),
        r.full_path@ == match worktree {
            Some(w) => join_path(w@, path@),
            None => path@,
        },
        r.diff == diff_source_of(r.section, r.change_type),
        final(state).selected_path matches Some(p) && p@ == path@,
        final(state).selected_section == r.section,
        final(state).show_file_view,
{
    let (s, ct) = resolve_selection(changed, path, section, change_type);
    state.selected_path = Some(path.to_owned());
    state.selected_section = s;
    state.show_file_view = true;
    FileSelection { section: s, change_type: ct, full_path: selection_full_path(worktree, path), diff: diff_source(s, ct) }
}

/// Which diff is fetched for a file.
#[derive(Debug, Clone, Copy, PartialEq, Eq, Structural)]
pub enum DiffSource {
    /// The staged diff (index against HEAD).
    Staged,
    /// The unstaged diff (working tree against the index).
    Unstaged,
    /// A diff that adds the whole file.
    AddedFile,
    /// A diff that deletes the whole file.
    DeletedFile,
    /// The working tree against HEAD.
    WorkingTree,
}

/// Which diff is fetched: the staged one in the staged section; in the
/// unstaged section the unstaged one, or a whole-file addition for an added
/// file; outside any section, a whole-file addition or deletion for added
/// and deleted files, else the working tree against HEAD.
pub open spec fn diff_source_of(section: Option<ChangeSection>, change_type: Option<ChangeType>) -> DiffSource {
    match section {
        Some(ChangeSection::Staged) => DiffSource::Staged,
        Some(ChangeSection::Unstaged) => if change_type == Some(ChangeType::Added) {
            DiffSource::AddedFile
        } else {
            DiffSource::Unstaged
        },
        None => if change_type == Some(ChangeType::Added) {
            DiffSource::AddedFile
        } else if change_type == Some(ChangeType::Deleted) {
            DiffSource::DeletedFile
        } else {
            DiffSource::WorkingTree
        },
    }
}

/// Which diff is fetched for a file.
pub fn diff_source(section: Option<ChangeSection>, change_type: Option<ChangeType>) -> (d: DiffSource)
    ensures
        d == diff_source_of(section, change_type),
{
    let added = match change_type {
        Some(ChangeType::Added) => true,
        _ => false,
    };
    let deleted = match change_type {
        Some(ChangeType::Deleted) => true,
        _ => false,
    };
    match section {
        Some(ChangeSection::Staged) => DiffSource::Staged,
        Some(ChangeSection::Unstaged) => if added { DiffSource::AddedFile } else { DiffSource::Unstaged },
        None => if added {
            DiffSource::AddedFile
        } else if deleted {
            DiffSource::DeletedFile
        } else {
            DiffSource::WorkingTree
        },
    }
}

/// Where a version of a file's content is read from.
#[derive(Debug, Clone, Copy, PartialEq, Eq, Structural)]
pub enum ContentSource {
    /// The staged version.
    Index,
    /// The file on disk.
    WorkingFile,
    /// The committed version.
    Head,
    /// Not read.
    Skip,
}

/// The new version: none for a deleted file, the staged version in the
/// staged section, else the file on disk.
pub open spec fn new_source_of(section: Option<ChangeSection>, change_type: Option<ChangeType>) -> ContentSource {
    if change_type == Some(ChangeType::Deleted) {
        ContentSource::Skip
    } else if section == Some(ChangeSection::Staged) {
        ContentSource::Index
    } else {
        ContentSource::WorkingFile
    }
}

/// The old version: only read when there is a diff and the file is not
/// newly added; the committed version, except in the unstaged section where
/// it is the staged one.
pub open spec fn old_source_of(
    section: Option<ChangeSection>,
    change_type: Option<ChangeType>,
    has_diff: bool,
) -> ContentSource {
    if !has_diff || change_type == Some(ChangeType::Added) {
        ContentSource::Skip
    } else if section == Some(ChangeSection::Unstaged) {
        ContentSource::Index
    } else {
        ContentSource::Head
    }
}

/// Where the new version of a file is read from.
pub fn new_content_source(section: Option<ChangeSection>, change_type: Option<ChangeType>) -> (s: ContentSource)
    ensures
        s == new_source_of(section, change_type),
{
    let deleted = match change_type {
        Some(ChangeType::Deleted) => true,
        _ => false,
    };
    if deleted {
        ContentSource::Skip
    } else {
        match section {
            Some(ChangeSection::Staged) => ContentSource::Index,
            _ => ContentSource::WorkingFile,
        }
    }
}

/// Where the old version of a file is read from.
pub fn old_content_source(section: Option<ChangeSection>, change_type: Option<ChangeType>, has_diff: bool) -> (s: ContentSource)
    ensures
        s == old_source_of(section, change_type, has_diff),
{
    let added = match change_type {
        Some(ChangeType::Added) => true,
        _ => false,
    };
    if !has_diff || added {
        ContentSource::Skip
    } else {
        match section {
            Some(ChangeSection::Unstaged) => ContentSource::Index,
            _ => ContentSource::Head,
        }
    }
}

/// Whether the old version is highlighted on its own (rather than sharing
/// the new version's highlighting): when it is read at all.
pub fn highlight_old_separately(change_type: Option<ChangeType>, has_diff: bool) -> (r: bool)
    ensures
        r == (has_diff && change_type != Some(ChangeType::Added)),
{
    let added = match change_type {
        Some(ChangeType::Added) => true,
        _ => false,
    };
    has_diff && !added
}

/// How the file view opens a file.
#[derive(Debug, Clone, Copy, PartialEq, Eq, Structural)]
pub enum OpenMode {
    /// A deleted file, shown through its diff.
    DeletedWithDiff,
    /// Nothing to show: an empty text.
    Empty,
    /// The diff with the new content.
    DiffAndContent,
    /// The diff, with the file read from disk (empty if that fails).
    DiffFromFile,
    /// The new content without a diff.
    Content,
    /// The file read from disk (empty if that fails).
    File,
}

/// How a file is opened, from what was fetched.
pub open spec fn open_mode_of(change_type: Option<ChangeType>, has_diff: bool, has_content: bool) -> OpenMode {
    if change_type == Some(ChangeType::Deleted) {
        if has_diff { OpenMode::DeletedWithDiff } else { OpenMode::Empty }
    } else if has_diff {
        if has_content { OpenMode::DiffAndContent } else { OpenMode::DiffFromFile }
    } else if has_content {
        OpenMode::Content
    } else {
        OpenMode::File
    }
}

/// How a file is opened.
pub fn open_mode(change_type: Option<ChangeType>, has_diff: bool, has_content: bool) -> (m: OpenMode)
    ensures
        m == open_mode_of(change_type, has_diff, has_content),
{
    let deleted = match change_type {
        Some(ChangeType::Deleted) => true,
        _ => false,
    };
    if deleted {
        if has_diff { OpenMode::DeletedWithDiff } else { OpenMode::Empty }
    } else if has_diff {
        if has_content { OpenMode::DiffAndContent } else { OpenMode::DiffFromFile }
    } else if has_content {
        OpenMode::Content
    } else {
        OpenMode::File
    }
}

/// Whether `b` begins with `p`.
pub open spec fn has_byte_prefix(b: Seq<u8>, p: Seq<u8>) -> bool {
    p.len() <= b.len() && b.take(p.len() as int) == p
}

/// Whether the bytes begin with a UTF-8, UTF-16 or UTF-32 byte-order mark.
pub open spec fn has_byte_order_mark(b: Seq<u8>) -> bool {
    has_byte_prefix(b, seq![0xEFu8, 0xBBu8, 0xBFu8]) || has_byte_prefix(b, seq![0x00u8, 0x00u8, 0xFEu8, 0xFFu8])
        || has_byte_prefix(b, seq![0xFEu8, 0xFFu8]) || has_byte_prefix(b, seq![0xFFu8, 0xFEu8])
}

/// Whether `content_inspector` classifies these bytes as binary: no
/// byte-order mark, and a zero byte among the first 1024 bytes or the
/// magic number of a PDF (`%PDF`) or a PNG (`\x89PNG`) at the start.
pub open spec fn binary_content(b: Seq<u8>) -> bool {
    &&& !has_byte_order_mark(b)
    &&& {
        ||| exists|i: int| 0 <= i < b.len() && i < 1024 && b[i] == 0u8
        ||| has_byte_prefix(b, seq![0x25u8, 0x50u8, 0x44u8, 0x46u8])
        ||| has_byte_prefix(b, seq![0x89u8, 0x50u8, 0x4Eu8, 0x47u8])
    }
}

/// `content_inspector::inspect(bytes) == ContentType::BINARY`.
#[verifier::external_body]
fn inspect_is_binary(bytes: &[u8]) -> (b: bool)
    ensures
        b == binary_content(bytes@),
{
    content_inspector::inspect(bytes) == content_inspector::ContentType::BINARY
}

/// Whether a file whose first bytes are `head` is shown as binary: it has
/// content, and the inspector finds it binary.
pub fn is_binary_prefix(head: &[u8]) -> (r: bool)
    ensures
        r == (head@.len() > 0 && binary_content(head@)),
{
    if head.len() == 0 {
        return false;
    }
    inspect_is_binary(head)
}

} // verus!
