use sashiki::git::{ChangeType, GitRepo, LinkedWorktree};

#[test]
fn status_lines_are_measured_in_bytes() {
    let repo = GitRepo::from_parts("/repo".to_string(), "/repo/.git".to_string());
    let out = " M src/a.rs\n?? new dir/\nMé\nR  old -> new\nx\n".to_string();
    assert!(GitRepo::status_output_ok(&out));
    let files = repo.get_changed_files(Ok(out)).unwrap();
    let paths: Vec<&str> = files.iter().map(|f| f.path.as_str()).collect();
    assert_eq!(paths, vec!["src/a.rs", "new dir", "", "new"]);
    assert_eq!(files[0].unstaged_change, Some(ChangeType::Modified));
    assert_eq!(files[1].unstaged_change, Some(ChangeType::Added));
    assert_eq!(files[2].staged_change, Some(ChangeType::Modified));
    assert_eq!(files[2].unstaged_change, Some(ChangeType::Unknown));
    assert_eq!(files[3].staged_change, Some(ChangeType::Renamed));
}

#[test]
fn status_line_cut_inside_a_character_is_refused() {
    assert!(!GitRepo::status_output_ok("ABé rest\n"));
    assert!(GitRepo::status_output_ok("Aé rest\n"));
    assert!(GitRepo::status_output_ok("éA rest\n"));
}

#[test]
fn detached_worktree_named_by_seven_bytes() {
    let repo = GitRepo::from_parts("/repo".to_string(), "/repo/.git".to_string());
    let out = "worktree /repo\nHEAD 0123456789abcdef\nbranch refs/heads/main\n\nworktree /wt/x\nHEAD abcdef0123\ndetached\n\n".to_string();
    let linked: Vec<LinkedWorktree> = Vec::new();
    assert!(GitRepo::worktree_output_ok(&out, &linked));
    let w = repo.list_worktrees(Ok(out), &linked).unwrap();
    assert_eq!(w.len(), 2);
    assert_eq!(w[0].branch.as_deref(), Some("main"));
    assert_eq!(w[1].branch.as_deref(), Some("abcdef0"));
    assert!(!GitRepo::worktree_output_ok("HEAD abcdefé\n", &linked));
}
