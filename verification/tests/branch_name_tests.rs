use sashiki::git::validate_branch_name;

#[test]
fn git_test_validate_branch_name_valid() {
    assert!(validate_branch_name("feature/test").is_ok());
    assert!(validate_branch_name("bugfix-123").is_ok());
    assert!(validate_branch_name("release-v1.0.0").is_ok());
    assert!(validate_branch_name("my_branch").is_ok());
    assert!(validate_branch_name("a").is_ok());
}

#[test]
fn git_test_validate_branch_name_empty() {
    assert_eq!(validate_branch_name(""), Err("Branch name cannot be empty"));
}

#[test]
fn git_test_validate_branch_name_slash_rules() {
    assert_eq!(validate_branch_name("/test"), Err("Branch name cannot start or end with /"));
    assert_eq!(validate_branch_name("test/"), Err("Branch name cannot start or end with /"));
    assert_eq!(validate_branch_name("test//foo"), Err("Branch name cannot contain //"));
}

#[test]
fn git_test_validate_branch_name_dot_rules() {
    assert_eq!(validate_branch_name(".test"), Err("Branch name cannot start or end with ."));
    assert_eq!(validate_branch_name("test."), Err("Branch name cannot start or end with ."));
    assert_eq!(validate_branch_name("test..foo"), Err("Branch name cannot contain .."));
    assert_eq!(validate_branch_name("test.lock"), Err("Branch name cannot end with .lock"));
}

#[test]
fn git_test_validate_branch_name_dash_rules() {
    assert_eq!(validate_branch_name("-test"), Err("Branch name cannot start with -"));
    assert!(validate_branch_name("test-").is_ok());
}

#[test]
fn git_test_validate_branch_name_forbidden_chars() {
    assert_eq!(validate_branch_name("test branch"), Err("Branch name contains invalid character"));
    assert_eq!(validate_branch_name("test~branch"), Err("Branch name contains invalid character"));
    assert_eq!(validate_branch_name("test^branch"), Err("Branch name contains invalid character"));
    assert_eq!(validate_branch_name("test:branch"), Err("Branch name contains invalid character"));
    assert_eq!(validate_branch_name("test?branch"), Err("Branch name contains invalid character"));
    assert_eq!(validate_branch_name("test*branch"), Err("Branch name contains invalid character"));
    assert_eq!(validate_branch_name("test[branch"), Err("Branch name contains invalid character"));
    assert_eq!(validate_branch_name("test\\branch"), Err("Branch name contains invalid character"));
}

#[test]
fn git_test_validate_branch_name_reflog_syntax() {
    assert_eq!(validate_branch_name("test@{1}"), Err("Branch name cannot contain @{"));
}

#[test]
fn mod_test_validate_branch_name_valid() {
    assert!(validate_branch_name("feature/test").is_ok());
    assert!(validate_branch_name("bugfix-123").is_ok());
    assert!(validate_branch_name("release-v1.0.0").is_ok());
    assert!(validate_branch_name("my_branch").is_ok());
    assert!(validate_branch_name("a").is_ok());
}

#[test]
fn mod_test_validate_branch_name_empty() {
    assert_eq!(validate_branch_name(""), Err("Branch name cannot be empty"));
}

#[test]
fn mod_test_validate_branch_name_slash_rules() {
    assert_eq!(validate_branch_name("/test"), Err("Branch name cannot start or end with /"));
    assert_eq!(validate_branch_name("test/"), Err("Branch name cannot start or end with /"));
    assert_eq!(validate_branch_name("test//foo"), Err("Branch name cannot contain //"));
}

#[test]
fn mod_test_validate_branch_name_dot_rules() {
    assert_eq!(validate_branch_name(".test"), Err("Branch name cannot start or end with ."));
    assert_eq!(validate_branch_name("test."), Err("Branch name cannot start or end with ."));
    assert_eq!(validate_branch_name("test..foo"), Err("Branch name cannot contain .."));
    assert_eq!(validate_branch_name("test.lock"), Err("Branch name cannot end with .lock"));
}

#[test]
fn mod_test_validate_branch_name_dash_rules() {
    assert_eq!(validate_branch_name("-test"), Err("Branch name cannot start with -"));
    assert!(validate_branch_name("test-").is_ok());
}

#[test]
fn mod_test_validate_branch_name_forbidden_chars() {
    assert_eq!(validate_branch_name("test branch"), Err("Branch name contains invalid character"));
    assert_eq!(validate_branch_name("test~branch"), Err("Branch name contains invalid character"));
    assert_eq!(validate_branch_name("test^branch"), Err("Branch name contains invalid character"));
    assert_eq!(validate_branch_name("test:branch"), Err("Branch name contains invalid character"));
    assert_eq!(validate_branch_name("test?branch"), Err("Branch name contains invalid character"));
    assert_eq!(validate_branch_name("test*branch"), Err("Branch name contains invalid character"));
    assert_eq!(validate_branch_name("test[branch"), Err("Branch name contains invalid character"));
    assert_eq!(validate_branch_name("test\\branch"), Err("Branch name contains invalid character"));
}

#[test]
fn mod_test_validate_branch_name_reflog_syntax() {
    assert_eq!(validate_branch_name("test@{1}"), Err("Branch name cannot contain @{"));
}

#[test]
fn branch_name_control_characters_are_invalid() {
    assert_eq!(validate_branch_name("a\tb"), Err("Branch name contains invalid character"));
    assert_eq!(validate_branch_name("a\u{85}b"), Err("Branch name contains invalid character"));
    assert_eq!(validate_branch_name("a\u{7f}b"), Err("Branch name contains invalid character"));
}

#[test]
fn branch_name_rules_apply_in_order() {
    // ".." is reported before the forbidden characters
    assert_eq!(validate_branch_name("a..b c"), Err("Branch name cannot contain .."));
    // a forbidden character is reported before "@{"
    assert_eq!(validate_branch_name("a b@{"), Err("Branch name contains invalid character"));
}

#[test]
fn branch_name_component_rules() {
    assert_eq!(
        validate_branch_name("feature/.hidden"),
        Err("Branch name component cannot start with .")
    );
    assert_eq!(
        validate_branch_name("topic.lock/x"),
        Err("Branch name component cannot end with .lock")
    );
    assert_eq!(validate_branch_name("@"), Err("Branch name cannot be @"));
    assert!(validate_branch_name("a/b.c/d").is_ok());
    assert!(validate_branch_name("@x").is_ok());
}
