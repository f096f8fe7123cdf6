//! The decisions of the commit dialog: what opening it leads to, what
//! submitting it does, what follows a successful commit, and the messages
//! shown when a step fails.

use vstd::prelude::*;
use crate::git::{changed_views, error_message, ChangedFile, ChangedFileView, GitError};
use crate::text::{chars_of, push_chars, string_from_chars, trim, trim_chars};

verus! {

/// Some file has staged changes.
pub open spec fn any_staged(files: Seq<ChangedFileView>) -> bool {
    exists|i: int| 0 <= i < files.len() && (#[trigger] files[i]).staged_change is Some
}

/// Some file has staged or unstaged changes.
pub open spec fn any_change(files: Seq<ChangedFileView>) -> bool {
    exists|i: int| 0 <= i < files.len()
        && ((#[trigger] files[i]).staged_change is Some || files[i].unstaged_change is Some)
}

/// Whether some file has staged changes.
pub fn has_staged(files: &Vec<ChangedFile>) -> (r: bool)
    ensures
        r == any_staged(changed_views(files@)),
{
    let ghost fs = changed_views(files@);
    let mut i: usize = 0;
    while i < files.len()
        invariant
            i <= files@.len(),
            fs == changed_views(files@),
            forall|k: int| 0 <= k < i ==> (#[trigger] fs[k]).staged_change is None,
        decreases files@.len() - i,
    {
        assert(fs[i as int] == files@[i as int]@);
        if files[i].has_staged_changes() {
            return true;
        }
        i += 1;
    }
    false
}

/// Whether some file has staged or unstaged changes.
pub fn has_any_change(files: &Vec<ChangedFile>) -> (r: bool)
    ensures
        r == any_change(changed_views(files@)),
{
    let ghost fs = changed_views(files@);
    let mut i: usize = 0;
    while i < files.len()
        invariant
            i <= files@.len(),
            fs == changed_views(files@),
            forall|k: int| 0 <= k < i ==> (#[trigger] fs[k]).staged_change is None && fs[k].unstaged_change is None,
        decreases files@.len() - i,
    {
        assert(fs[i as int] == files@[i as int]@);
        if files[i].has_staged_changes() || files[i].has_unstaged_changes() {
            return true;
        }
        i += 1;
    }
    false
}

/// What opening the commit dialog leads to.
#[derive(Debug, Clone, Copy, PartialEq, Eq, Structural)]
pub enum OpenCommit {
    /// The dialog opens for a new commit.
    Commit,
    /// Nothing changed but there is a last commit: the dialog opens to amend it.
    Amend,
    /// Nothing changed and nothing to amend.
    NothingToCommit,
}

/// Opening the commit dialog: a new commit when something changed, else
/// amending the last commit when there is one.
pub fn open_commit_choice(files: &Vec<ChangedFile>, has_head: bool) -> (r: OpenCommit)
    ensures
        r == (if any_change(changed_views(files@)) {
            OpenCommit::Commit
        } else if has_head {
            OpenCommit::Amend
        } else {
            OpenCommit::NothingToCommit
        }),
{
    if has_any_change(files) {
        OpenCommit::Commit
    } else if has_head {
        OpenCommit::Amend
    } else {
        OpenCommit::NothingToCommit
    }
}

/// What submitting the commit dialog does.
#[derive(Debug, Clone)]
pub enum CommitSubmit {
    /// The message is empty: this error is shown.
    Error(String),
    /// Amending: the user confirms overwriting the last commit first.
    ConfirmAmend,
    /// Nothing is staged: the user confirms staging everything first.
    ConfirmSmartCommit,
    /// Commit the staged changes with this message.
    Commit(String),
}

/// Submitting the commit dialog with the text `input`: an empty (trimmed)
/// message is refused; an amend and a commit with nothing staged ask for
/// confirmation; otherwise the staged changes are committed with the
/// trimmed message.
pub fn submit_commit(input: &str, amend: bool, files: &Vec<ChangedFile>) -> (r: CommitSubmit)
    ensures
        trim(input@).len() == 0 ==> (r matches CommitSubmit::Error(m) && m@ == "Commit message cannot be empty"@),
        trim(input@).len() > 0 && amend ==> r is ConfirmAmend,
        trim(input@).len() > 0 && !amend && !any_staged(changed_views(files@)) ==> r is ConfirmSmartCommit,
        trim(input@).len() > 0 && !amend && any_staged(changed_views(files@))
            ==> (r matches CommitSubmit::Commit(m) && m@ == trim(input@)),
{
    let message = trim_chars(&chars_of(input));
    if message.len() == 0 {
        return CommitSubmit::Error("Commit message cannot be empty".to_owned());
    }
    if amend {
        return CommitSubmit::ConfirmAmend;
    }
    if !has_staged(files) {
        return CommitSubmit::ConfirmSmartCommit;
    }
    CommitSubmit::Commit(string_from_chars(&message))
}

/// What runs after a successful commit.
#[derive(Debug, Clone, Copy, PartialEq, Eq, Structural)]
pub enum FollowUp {
    Nothing,
    Push,
    /// Pull, then push.
    Sync,
}

/// What runs after a successful commit: a sync when asked for (it pushes
/// too), else a push when asked for.
pub fn follow_up(push: bool, sync: bool) -> (r: FollowUp)
    ensures
        r == (if sync { FollowUp::Sync } else if push { FollowUp::Push } else { FollowUp::Nothing }),
{
    if sync {
        FollowUp::Sync
    } else if push {
        FollowUp::Push
    } else {
        FollowUp::Nothing
    }
}

/// `prefix` followed by the text of `e`.
fn with_error(prefix: &str, e: &GitError) -> (m: String)
    ensures
        m@ == prefix@ + error_message(*e),
{
    let mut v = chars_of(prefix);
    push_chars(&mut v, &chars_of(e.message().as_str()));
    string_from_chars(&v)
}

/// The message shown when a commit (or an amend) fails.
pub fn commit_error(amend: bool, e: &GitError) -> (m: String)
    ensures
        m@ == (if amend { "Failed to amend commit: "@ } else { "Failed to commit: "@ }) + error_message(*e),
{
    if amend {
        with_error("Failed to amend commit: ", e)
    } else {
        with_error("Failed to commit: ", e)
    }
}

/// The message shown when staging everything before a commit fails.
pub fn stage_error(e: &GitError) -> (m: String)
    ensures
        m@ == "Failed to stage changes: "@ + error_message(*e),
{
    with_error("Failed to stage changes: ", e)
}

/// An exchange with the remote.
#[derive(Debug, Clone, Copy, PartialEq, Eq, Structural)]
pub enum RemoteOp {
    Push,
    Pull,
    Sync,
}

/// The message shown when an exchange with the remote fails.
pub fn remote_error(op: RemoteOp, e: &GitError) -> (m: String)
    ensures
        m@ == match op {
            RemoteOp::Push => "Push failed: "@,
            RemoteOp::Pull => "Pull failed: "@,
            RemoteOp::Sync => "Sync failed: "@,
        } + error_message(*e),
{
    match op {
        RemoteOp::Push => with_error("Push failed: ", e),
        RemoteOp::Pull => with_error("Pull failed: ", e),
        RemoteOp::Sync => with_error("Sync failed: ", e),
    }
}

} // verus!
