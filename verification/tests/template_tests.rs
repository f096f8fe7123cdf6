use sashiki::dialog::{creation_step_done, plan_worktree_creation, worktree_exists_message, ActiveDialog};
use sashiki::git::{next_in_order, GitError, GitRepo};
use sashiki::template::{command_failure_message, copy_pattern, copy_target, CreationStep, TemplateConfig};

fn template() -> TemplateConfig {
    TemplateConfig {
        pre_create_commands: vec!["npm ci".to_string()],
        file_copies: vec![".env".to_string()],
        post_create_commands: vec!["make setup".to_string(), "echo ok".to_string()],
        working_directory: Some("app".to_string()),
    }
}

#[test]
fn template_is_empty() {
    assert!(TemplateConfig::default().is_empty());
    assert!(!template().is_empty());
    let only_dir = TemplateConfig { working_directory: Some("x".to_string()), ..TemplateConfig::default() };
    assert!(only_dir.is_empty());
}

#[test]
fn template_resolves_working_directory() {
    assert_eq!(template().resolve_working_directory("/w/feat"), "/w/feat/app");
    let empty = TemplateConfig { working_directory: Some(String::new()), ..template() };
    assert_eq!(empty.resolve_working_directory("/w/feat"), "/w/feat");
    assert_eq!(TemplateConfig::default().resolve_working_directory("/w/feat"), "/w/feat");
}

#[test]
fn template_creation_steps() {
    assert_eq!(
        template().creation_steps(),
        vec!["npm ci", "Creating worktree", "Copying files", "make setup", "echo ok"]
    );
    assert_eq!(TemplateConfig::default().creation_steps(), vec!["Creating worktree"]);
}

#[test]
fn template_creation_plan_matches_steps() {
    let t = template();
    let plan = t.creation_plan("/main", "/w/feat");
    let labels: Vec<String> = plan.iter().map(|s| s.label()).collect();
    assert_eq!(labels, t.creation_steps());
    match &plan[0] {
        CreationStep::PreCreate { workdir, .. } => assert_eq!(workdir, "/main"),
        _ => panic!("expected a pre-create step"),
    }
    match &plan[4] {
        CreationStep::PostCreate { workdir, command } => {
            assert_eq!(workdir, "/w/feat/app");
            assert_eq!(command, "echo ok");
        }
        _ => panic!("expected a post-create step"),
    }
}

#[test]
fn creation_step_outcomes() {
    let pre = CreationStep::PreCreate { command: "x".to_string(), workdir: "/".to_string() };
    assert_eq!(pre.outcome(Err("boom".to_string())), Err("Pre-create command failed: boom".to_string()));
    assert_eq!(pre.outcome(Ok(())), Ok(()));
    let post = CreationStep::PostCreate { command: "x".to_string(), workdir: "/".to_string() };
    assert_eq!(post.outcome(Err("bad".to_string())), Err("Post-create command failed: bad".to_string()));
    assert_eq!(CreationStep::CopyFiles.outcome(Err("disk".to_string())), Ok(()));
    assert_eq!(CreationStep::CreateWorktree.outcome(Err("exists".to_string())), Err("Failed to create worktree: exists".to_string()));
}

#[test]
fn template_load_from_config_outputs() {
    let repo = GitRepo::from_parts("/p/proj".to_string(), "/p/proj/.git".to_string());
    let plans = TemplateConfig::load_plans(&repo);
    assert_eq!(plans.len(), 4);
    assert_eq!(plans[3].steps[0].args, vec!["config", "--get", "sashiki.template.workingDirectory"]);
    let t = TemplateConfig::load(
        &repo,
        Ok("a\n\nb\n".to_string()),
        Err(GitError::Command("unset".to_string())),
        Ok("c\n".to_string()),
        Ok("  sub/dir \n".to_string()),
    );
    assert_eq!(t.pre_create_commands, vec!["a", "b"]);
    assert!(t.file_copies.is_empty());
    assert_eq!(t.post_create_commands, vec!["c"]);
    assert_eq!(t.working_directory, Some("sub/dir".to_string()));
}

#[test]
fn template_save_plans() {
    let repo = GitRepo::from_parts("/p/proj".to_string(), "/p/proj/.git".to_string());
    let plans = template().save(&repo);
    assert_eq!(plans.len(), 4);
    assert_eq!(plans[0].steps.len(), 1);
    assert_eq!(plans[2].steps.len(), 2);
    assert_eq!(plans[3].steps[0].args, vec!["config", "--local", "sashiki.template.workingDirectory", "app"]);
    let plans = TemplateConfig::default().save(&repo);
    assert_eq!(plans[3].steps[0].args, vec!["config", "--local", "--unset-all", "sashiki.template.workingDirectory"]);
    assert!(plans[3].error_as_empty);
}

#[test]
fn copy_paths() {
    assert_eq!(copy_pattern("/main", "config/*.toml"), "/main/config/*.toml");
    let (rel, dest) = copy_target("/main", "/w/feat", "/main/config/a.toml").unwrap();
    assert_eq!(rel, "config/a.toml");
    assert_eq!(dest, "/w/feat/config/a.toml");
    let err = copy_target("/main", "/w/feat", "/elsewhere/a.toml").unwrap_err();
    assert!(!err.success);
    assert_eq!(err.path, "/elsewhere/a.toml");
    assert_eq!(err.error, Some("Failed to determine relative path".to_string()));
}

#[test]
fn shell_failure_messages() {
    assert_eq!(command_failure_message("  oops \n", "out", "exit status: 1"), "oops");
    assert_eq!(command_failure_message("  ", " out\n", "exit status: 1"), "out");
    assert_eq!(command_failure_message("", "", "exit status: 2"), "Command exited with status: exit status: 2");
}

#[test]
fn worktree_creation_checks() {
    let repo = GitRepo::from_parts("/p/proj".to_string(), "/p/proj/.git".to_string());
    let req = plan_worktree_creation("  feature/login ", Some(&repo)).unwrap();
    assert_eq!(req.branch, "feature/login");
    assert_eq!(req.worktree_name, "feature-login");
    assert_eq!(req.worktree_path, "/p/proj.worktrees/feature-login");
    assert_eq!(plan_worktree_creation("", Some(&repo)).unwrap_err(), "Branch name cannot be empty");
    assert_eq!(plan_worktree_creation("ok", None).unwrap_err(), "Git repository not available");
    let root = GitRepo::from_parts("/".to_string(), "/.git".to_string());
    assert_eq!(plan_worktree_creation("ok", Some(&root)).unwrap_err(), "Failed to generate worktree path");
    assert_eq!(
        worktree_exists_message("/x"),
        "Worktree directory already exists: /x\nPlease remove it manually or choose a different branch name."
    );
}

#[test]
fn creating_dialog_progress() {
    let mut d = ActiveDialog::creating("b".to_string(), &template());
    d.set_progress(3);
    match &d {
        ActiveDialog::Creating { branch, steps, current_step } => {
            assert_eq!(branch, "b");
            assert_eq!(steps.len(), 5);
            assert_eq!(*current_step, 3);
        }
        _ => panic!("expected the creating dialog"),
    }
    let mut e = ActiveDialog::default();
    e.set_progress(2);
    assert!(matches!(e, ActiveDialog::Closed));
}

#[test]
fn settings_texts_round_trip() {
    let t = TemplateConfig {
        pre_create_commands: vec!["npm ci".to_string(), "make setup".to_string()],
        file_copies: vec![".env".to_string()],
        post_create_commands: vec![],
        working_directory: Some("app".to_string()),
    };
    let (pre, copies, post, workdir) = t.settings_texts();
    assert_eq!(pre, "npm ci\nmake setup");
    assert_eq!(copies, ".env");
    assert_eq!(post, "");
    assert_eq!(workdir, "app");
    let back = TemplateConfig::from_settings_texts(&pre, &copies, &post, &workdir);
    assert_eq!(back.pre_create_commands, t.pre_create_commands);
    assert_eq!(back.file_copies, t.file_copies);
    assert!(back.post_create_commands.is_empty());
    assert_eq!(back.working_directory, Some("app".to_string()));
}

#[test]
fn settings_texts_are_cleaned_when_read() {
    let t = TemplateConfig::from_settings_texts("  a  \r\n\n\t\nb", "x\n", "", "   ");
    assert_eq!(t.pre_create_commands, vec!["a".to_string(), "b".to_string()]);
    assert_eq!(t.file_copies, vec!["x".to_string()]);
    assert!(t.post_create_commands.is_empty());
    assert_eq!(t.working_directory, None);
    assert_eq!(sashiki::template::join_lines(&vec![]), "");
    assert_eq!(sashiki::template::text_area_entries(" one \n two"), vec!["one".to_string(), "two".to_string()]);
}

#[test]
fn creation_steps_advance_progress_until_one_fails() {
    let t = template();
    let plan = t.creation_plan("/main", "/wt");
    let mut d = ActiveDialog::creating("b".to_string(), &t);
    let done = creation_step_done(&mut d, 0, &plan[0], Ok(())).unwrap();
    assert_eq!(done, 1);
    let stop = creation_step_done(&mut d, done, &plan[1], Err("exists".to_string()));
    assert_eq!(stop, Err("Failed to create worktree: exists".to_string()));
    match &d {
        ActiveDialog::Creating { current_step, .. } => assert_eq!(*current_step, 1),
        _ => panic!("expected the creating dialog"),
    }
}

#[test]
fn commands_in_order_stop_at_first_failure() {
    assert_eq!(next_in_order(0, 3, &Ok(String::new())), Some(1));
    assert_eq!(next_in_order(2, 3, &Ok(String::new())), None);
    assert_eq!(next_in_order(0, 3, &Err(GitError::Command("no".to_string()))), None);
}

#[test]
fn open_skips_the_second_lookup_after_a_failure() {
    assert!(GitRepo::open_next_plan(&Err(GitError::Command("not a repo".to_string()))).is_none());
    let p = GitRepo::open_next_plan(&Ok("/repo\n".to_string())).unwrap();
    assert_eq!(p.steps[0].args, vec!["rev-parse".to_string(), "--git-common-dir".to_string()]);
}
