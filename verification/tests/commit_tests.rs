use sashiki::commit::{
    commit_error, follow_up, has_any_change, has_staged, open_commit_choice, remote_error, stage_error,
    submit_commit, CommitSubmit, FollowUp, OpenCommit, RemoteOp,
};
use sashiki::git::{ChangeType, ChangedFile, GitError};

fn file(staged: Option<ChangeType>, unstaged: Option<ChangeType>) -> ChangedFile {
    ChangedFile { path: "a.rs".to_string(), staged_change: staged, unstaged_change: unstaged }
}

#[test]
fn opening_the_dialog() {
    let none: Vec<ChangedFile> = vec![];
    assert_eq!(open_commit_choice(&vec![file(None, Some(ChangeType::Modified))], false), OpenCommit::Commit);
    assert_eq!(open_commit_choice(&none, true), OpenCommit::Amend);
    assert_eq!(open_commit_choice(&none, false), OpenCommit::NothingToCommit);
    assert!(has_any_change(&vec![file(Some(ChangeType::Added), None)]));
    assert!(!has_staged(&vec![file(None, Some(ChangeType::Added))]));
}

#[test]
fn submitting_the_dialog() {
    let staged = vec![file(Some(ChangeType::Modified), None)];
    let unstaged = vec![file(None, Some(ChangeType::Modified))];
    match submit_commit("   \n", false, &staged) {
        CommitSubmit::Error(m) => assert_eq!(m, "Commit message cannot be empty"),
        other => panic!("unexpected {:?}", other),
    }
    assert!(matches!(submit_commit("fix", true, &staged), CommitSubmit::ConfirmAmend));
    assert!(matches!(submit_commit("fix", false, &unstaged), CommitSubmit::ConfirmSmartCommit));
    match submit_commit("  fix bug \n", false, &staged) {
        CommitSubmit::Commit(m) => assert_eq!(m, "fix bug"),
        other => panic!("unexpected {:?}", other),
    }
}

#[test]
fn after_a_commit() {
    assert_eq!(follow_up(false, false), FollowUp::Nothing);
    assert_eq!(follow_up(true, false), FollowUp::Push);
    assert_eq!(follow_up(true, true), FollowUp::Sync);
    let e = GitError::Command("rejected".to_string());
    assert_eq!(commit_error(false, &e), "Failed to commit: Git command failed: rejected");
    assert_eq!(commit_error(true, &e), "Failed to amend commit: Git command failed: rejected");
    assert_eq!(stage_error(&e), "Failed to stage changes: Git command failed: rejected");
    assert_eq!(remote_error(RemoteOp::Pull, &e), "Pull failed: Git command failed: rejected");
    assert_eq!(remote_error(RemoteOp::Sync, &e), "Sync failed: Git command failed: rejected");
    assert_eq!(remote_error(RemoteOp::Push, &e), "Push failed: Git command failed: rejected");
}
