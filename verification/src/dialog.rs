//! Which dialog is open, and the checks made before a worktree is created.

use vstd::prelude::*;
use crate::git::{dash_slashes, opt_str, strs, validate_branch_name, worktree_name_for_branch, worktrees_dir_of, branch_name_problem, ChangeType, GitRepo};
use crate::path::join_path;
use crate::template::{creation_labels, result_view, step_outcome, CreationStep, TemplateConfig};
use crate::text::{chars_of, push_chars, string_from_chars, trim, trim_chars};

verus! {

/// The dialog currently shown.
#[derive(Debug, Clone)]
pub enum ActiveDialog {
    /// No dialog.
    Closed,
    CreateWorktree,
    Commit,
    Stash,
    /// Worktree creation in progress, with its steps and how many are done.
    Creating { branch: String, steps: Vec<String>, current_step: usize },
    DeleteConfirm { target_index: usize },
    DiscardFileConfirm { path: String, change_type: ChangeType },
    DiscardAllConfirm,
    /// No staged changes: asks whether to stage everything and commit.
    SmartCommitConfirm,
    /// Confirms undoing the last commit (keeping its changes staged).
    UndoCommitConfirm,
    /// Confirms amending the last commit.
    AmendCommitConfirm,
    /// Confirms discarding an unstaged hunk or line range.
    DiscardHunkConfirm,
    /// Confirms applying a stash entry.
    StashApplyConfirm { reference: String },
    /// Confirms popping a stash entry (apply, then drop).
    StashPopConfirm { reference: String },
    /// Confirms dropping a stash entry.
    StashDropConfirm { reference: String },
    Deleting,
    /// Template settings.
    TemplateSettings,
    Error { message: String },
}

impl Default for ActiveDialog {
    fn default() -> (d: ActiveDialog)
        ensures
            d is Closed,
    {
        ActiveDialog::Closed
    }
}

impl ActiveDialog {
    /// The progress dialog for creating a worktree on `branch` with
    /// `template`: every step listed, none done yet.
    pub fn creating(branch: String, template: &TemplateConfig) -> (d: ActiveDialog)
        ensures
            d matches ActiveDialog::Creating { branch: b, steps, current_step }
                && b@ == branch@ && strs(steps@) == creation_labels(template@) && current_step == 0,
    {
        ActiveDialog::Creating { branch, steps: template.creation_steps(), current_step: 0 }
    }

    /// Records that `step` steps are done, when creation is in progress; any
    /// other dialog is left as it is.
    pub fn set_progress(&mut self, step: usize)
        ensures
            match *old(self) {
                ActiveDialog::Creating { branch, steps, current_step } => *final(self) == (ActiveDialog::Creating {
                    branch,
                    steps,
                    current_step: step,
                }),
                _ => *final(self) == *old(self),
            },
    {
        match self {
            ActiveDialog::Creating { current_step, .. } => {
                *current_step = step;
            },
            _ => {},
        }
    }
}

/// The dialog with its progress set to `step` when creation is in progress;
/// any other dialog as it is.
pub open spec fn with_progress(d: ActiveDialog, step: usize) -> ActiveDialog {
    match d {
        ActiveDialog::Creating { branch, steps, current_step } => ActiveDialog::Creating {
            branch,
            steps,
            current_step: step,
        },
        _ => d,
    }
}

/// A step of a worktree creation has ended with `result`, after `done`
/// steps had succeeded: when the creation goes on, the dialog shows
/// `done + 1` steps done and the new count comes back; when it stops, the
/// dialog is left as it was and the message it stops with comes back.
pub fn creation_step_done(
    dialog: &mut ActiveDialog,
    done: usize,
    step: &CreationStep,
    result: Result<(), String>,
) -> (r: Result<usize, String>)
    requires
        done < usize::MAX,
    ensures
        match step_outcome(step@, result_view(result)) {
            Ok(()) => r == Ok::<usize, String>((done + 1) as usize) && *final(dialog) == with_progress(
                *old(dialog),
                (done + 1) as usize,
            ),
            Err(e) => r matches Err(m) && m@ == e && *final(dialog) == *old(dialog),
        },
{
    match step.outcome(result) {
        Ok(()) => {
            dialog.set_progress(done + 1);
            Ok(done + 1)
        },
        Err(m) => Err(m),
    }
}

/// What a worktree is created from: the branch, the worktree's name and its
/// path.
#[derive(Debug, Clone)]
pub struct CreationRequest {
    pub branch: String,
    pub worktree_name: String,
    pub worktree_path: String,
}

/// Why a worktree cannot be created from the branch typed in `input`, or
/// (branch, name, path) of the worktree to create.
pub open spec fn creation_request_of(
    input: Seq<char>,
    workdir: Option<Seq<char>>,
) -> Result<(Seq<char>, Seq<char>, Seq<char>), Seq<char>> {
    let branch = trim(input);
    match branch_name_problem(branch) {
        Some(msg) => Err(msg),
        None => match workdir {
            None => Err("Git repository not available"@),
            Some(w) => match worktrees_dir_of(w) {
                None => Err("Failed to generate worktree path"@),
                Some(d) => Ok((branch, dash_slashes(branch), join_path(d, dash_slashes(branch)))),
            },
        },
    }
}

/// Checks the branch typed in `input` against the repository of the active
/// session (if any) and works out the new worktree's name and path, or the
/// message to show instead.
pub fn plan_worktree_creation(input: &str, repo: Option<&GitRepo>) -> (r: Result<CreationRequest, String>)
    ensures
        match creation_request_of(input@, match repo { Some(g) => Some(g.spec_workdir()), None => None }) {
            Ok((b, n, p)) => r is Ok && r->Ok_0.branch@ == b && r->Ok_0.worktree_name@ == n
                && r->Ok_0.worktree_path@ == p,
            Err(m) => r is Err && r->Err_0@ == m,
        },
{
    let branch = string_from_chars(&trim_chars(&chars_of(input)));
    match validate_branch_name(branch.as_str()) {
        Err(msg) => {
            return Err(msg.to_owned());
        },
        Ok(()) => {},
    }
    let repo = match repo {
        Some(g) => g,
        None => {
            return Err("Git repository not available".to_owned());
        },
    };
    match repo.generate_worktree_path(branch.as_str()) {
        None => Err("Failed to generate worktree path".to_owned()),
        Some(path) => {
            let name = worktree_name_for_branch(branch.as_str());
            Ok(CreationRequest { branch, worktree_name: name, worktree_path: path })
        },
    }
}

/// The message shown when the new worktree's directory is already there.
pub fn worktree_exists_message(path: &str) -> (m: String)
    ensures
        m@ == "Worktree directory already exists: "@ + path@
            + "\nPlease remove it manually or choose a different branch name."@,
{
    let mut v = chars_of("Worktree directory already exists: ");
    push_chars(&mut v, &chars_of(path));
    push_chars(&mut v, &chars_of("\nPlease remove it manually or choose a different branch name."));
    string_from_chars(&v)
}

/// The worktrees of a project being opened, or the message shown instead:
/// a repository that cannot be opened, worktrees that cannot be listed, and
/// a repository without worktrees are errors.
pub fn opened_worktrees(
    repo: Result<(), crate::git::GitError>,
    listed: Result<Vec<crate::git::Worktree>, crate::git::GitError>,
) -> (r: Result<Vec<crate::git::Worktree>, String>)
    ensures
        match repo {
            Err(e) => r is Err && r->Err_0@ == "Failed to open repository: "@ + crate::git::error_message(e),
            Ok(()) => match listed {
                Err(e) => r is Err && r->Err_0@ == "Failed to list worktrees: "@ + crate::git::error_message(e),
                Ok(w) => if w@.len() == 0 {
                    r is Err && r->Err_0@ == "No worktrees found in repository"@
                } else {
                    r is Ok && r->Ok_0@ == w@
                },
            },
        },
{
    match repo {
        Err(e) => {
            let mut v = chars_of("Failed to open repository: ");
            push_chars(&mut v, &chars_of(e.message().as_str()));
            return Err(string_from_chars(&v));
        },
        Ok(()) => {},
    }
    match listed {
        Err(e) => {
            let mut v = chars_of("Failed to list worktrees: ");
            push_chars(&mut v, &chars_of(e.message().as_str()));
            Err(string_from_chars(&v))
        },
        Ok(w) => {
            if w.len() == 0 {
                Err("No worktrees found in repository".to_owned())
            } else {
                Ok(w)
            }
        },
    }
}

/// The name a project is shown under: its directory's name, or "project".
pub fn project_name(project_path: &str) -> (n: String)
    ensures
        n@ == match crate::path::file_name_of(project_path@) {
            Some(f) => f,
            None => "project"@,
        },
{
    match crate::path::file_name(&chars_of(project_path)) {
        Some(f) => string_from_chars(&f),
        None => "project".to_owned(),
    }
}

} // verus!
