use sashiki::git::Worktree;
use sashiki::session::{LayoutMode, Session, SessionColor, SessionManager, SessionStatus};
use sashiki::theme;

fn make_worktree(name: &str, is_main: bool) -> Worktree {
    Worktree {
        name: name.to_string(),
        path: format!("/worktrees/{}", name),
        branch: Some(format!("feature/{}", name)),
        is_main,
        locked: false,
    }
}

// ===== SessionColor =====

#[test]
fn test_session_color_for_index_cycles() {
    let color0 = SessionColor::for_index(0);
    let color8 = SessionColor::for_index(8);
    assert_eq!(color0, color8);
}

#[test]
fn test_session_color_all_unique() {
    let colors: Vec<_> = (0..8).map(SessionColor::for_index).collect();
    for i in 0..8 {
        for j in (i + 1)..8 {
            assert_ne!(colors[i], colors[j], "Colors at {} and {} should differ", i, j);
        }
    }
}

#[test]
fn session_color_palette_order() {
    assert_eq!(SessionColor::for_index(0).primary, theme::BLUE);
    assert_eq!(SessionColor::for_index(3).primary, theme::RED);
    assert_eq!(SessionColor::for_index(7).primary, theme::PINK);
    assert_eq!(SessionColor::for_index(13).primary, theme::TEAL);
}

// ===== SessionStatus =====

#[test]
fn test_session_status_symbols() {
    assert_eq!(SessionStatus::Focused.symbol(), "●");
    assert_eq!(SessionStatus::Running.symbol(), "○");
    assert_eq!(SessionStatus::Stopped.symbol(), "◌");
}

// ===== Session =====

#[test]
fn test_session_new() {
    let worktree = make_worktree("test", false);
    let session: Session<u32> = Session::new(worktree, 0);

    assert_eq!(session.name(), "test");
    assert_eq!(session.branch(), Some("feature/test"));
    assert!(!session.is_main());
    assert!(!session.is_locked());
    assert_eq!(session.status(), SessionStatus::Stopped);
    assert!(!session.is_visible_in_parallel());
    assert!(!session.has_terminals());
    assert_eq!(session.terminal_count(), 0);
}

#[test]
fn test_session_main_worktree() {
    let worktree = make_worktree("main", true);
    let session: Session<u32> = Session::new(worktree, 0);

    assert!(session.is_main());
}

#[test]
fn test_session_update_worktree_info() {
    let worktree = make_worktree("test", false);
    let mut session: Session<u32> = Session::new(worktree, 0);

    let updated = Worktree {
        name: "test".to_string(),
        path: "/worktrees/test".to_string(),
        branch: Some("main".to_string()),
        is_main: false,
        locked: true,
    };

    session.update_worktree_info(&updated);

    assert_eq!(session.branch(), Some("main"));
    assert!(session.is_locked());
}

#[test]
fn session_terminals_start_in_worktree_directory() {
    let mut session: Session<String> = Session::new(make_worktree("t", false), 2);
    session.add_terminal(|dir| dir);
    session.add_terminal_in_directory("/tmp/x".to_string(), |dir| dir);
    assert_eq!(session.terminal_count(), 2);
    assert_eq!(session.active_terminal().map(|s| s.as_str()), Some("/tmp/x"));
    assert_eq!(session.status(), SessionStatus::Running);
    session.switch_terminal(0);
    assert_eq!(session.active_terminal().map(|s| s.as_str()), Some("/worktrees/t"));
    assert_eq!(session.color(), SessionColor::for_index(2));
}

#[test]
fn session_ensure_terminal_only_when_empty() {
    let mut session: Session<u32> = Session::new(make_worktree("t", false), 0);
    session.ensure_terminal(|_| 7);
    session.ensure_terminal(|_| 9);
    assert_eq!(session.terminal_count(), 1);
    assert_eq!(session.active_terminal(), Some(&7));
}

#[test]
fn session_remove_terminal_keeps_active() {
    let mut session: Session<u32> = Session::new(make_worktree("t", false), 0);
    for t in [10, 11, 12] {
        session.push_terminal(t);
    }
    session.switch_terminal(2);
    session.remove_terminal(0);
    assert_eq!(session.active_terminal(), Some(&12));
    session.remove_terminal(1);
    assert_eq!(session.active_terminal(), Some(&11));
    session.remove_terminal(5);
    assert_eq!(session.terminal_count(), 1);
    session.remove_terminal(0);
    assert!(!session.has_terminals());
    assert_eq!(session.status(), SessionStatus::Stopped);
    assert_eq!(session.active_terminal(), None);
}

#[test]
fn session_next_and_prev_terminal_wrap() {
    let mut session: Session<u32> = Session::new(make_worktree("t", false), 0);
    session.next_terminal();
    assert_eq!(session.active_terminal(), None);
    for t in [1, 2, 3] {
        session.push_terminal(t);
    }
    session.next_terminal();
    assert_eq!(session.active_terminal(), Some(&1));
    session.prev_terminal();
    assert_eq!(session.active_terminal(), Some(&3));
    session.prev_terminal();
    session.next_terminal();
    assert_eq!(session.active_terminal(), Some(&3));
    session.clear_terminals();
    assert_eq!(session.terminal_count(), 0);
    assert_eq!(session.status(), SessionStatus::Stopped);
}

// ===== LayoutMode =====

#[test]
fn test_layout_mode_default() {
    let mode = LayoutMode::default();
    assert_eq!(mode, LayoutMode::Single);
}

// ===== SessionManager =====

#[test]
fn test_session_manager_new() {
    let manager: SessionManager<u32> = SessionManager::new();
    assert!(manager.is_empty());
    assert_eq!(manager.len(), 0);
    assert_eq!(manager.active_index(), 0);
    assert_eq!(manager.layout_mode(), LayoutMode::Single);
}

#[test]
fn test_session_manager_init_from_worktrees() {
    let mut manager: SessionManager<u32> = SessionManager::new();
    let worktrees = vec![
        make_worktree("main", true),
        make_worktree("feature1", false),
        make_worktree("feature2", false),
    ];

    manager.init_from_worktrees(worktrees);

    assert_eq!(manager.len(), 3);
    assert_eq!(manager.active_index(), 0);
    assert_eq!(manager.sessions()[0].name(), "main");
    assert_eq!(manager.sessions()[1].name(), "feature1");
    assert_eq!(manager.sessions()[2].name(), "feature2");
}

#[test]
fn test_session_manager_add_session() {
    let mut manager: SessionManager<u32> = SessionManager::new();

    let result1 = manager.add_session(make_worktree("test1", false));
    assert!(result1);
    assert_eq!(manager.len(), 1);

    let result2 = manager.add_session(make_worktree("test2", false));
    assert!(result2);
    assert_eq!(manager.len(), 2);
}

#[test]
fn test_session_manager_add_session_duplicate() {
    let mut manager: SessionManager<u32> = SessionManager::new();

    manager.add_session(make_worktree("test", false));
    let result = manager.add_session(make_worktree("test", false));

    assert!(!result);
    assert_eq!(manager.len(), 1);
}

#[test]
fn session_manager_add_session_same_path_spelled_differently() {
    let mut manager: SessionManager<u32> = SessionManager::new();
    manager.add_session(make_worktree("test", false));
    let mut w = make_worktree("other", false);
    w.path = "/worktrees//test/".to_string();
    assert!(!manager.add_session(w));
    assert_eq!(manager.len(), 1);
}

#[test]
fn test_session_manager_remove_session() {
    let mut manager: SessionManager<u32> = SessionManager::new();
    manager.init_from_worktrees(vec![
        make_worktree("main", true),
        make_worktree("feature1", false),
        make_worktree("feature2", false),
    ]);

    manager.remove_session(1);

    assert_eq!(manager.len(), 2);
    assert_eq!(manager.sessions()[0].name(), "main");
    assert_eq!(manager.sessions()[1].name(), "feature2");
}

#[test]
fn session_manager_remove_last_session_is_refused() {
    let mut manager: SessionManager<u32> = SessionManager::new();
    manager.init_from_worktrees(vec![make_worktree("main", true)]);
    manager.remove_session(0);
    assert_eq!(manager.len(), 1);
    manager.remove_session(4);
    assert_eq!(manager.len(), 1);
}

#[test]
fn test_session_manager_remove_session_adjusts_active_index() {
    let mut manager: SessionManager<u32> = SessionManager::new();
    manager.init_from_worktrees(vec![
        make_worktree("main", true),
        make_worktree("feature1", false),
        make_worktree("feature2", false),
    ]);
    manager.switch_to(2);
    assert_eq!(manager.active_index(), 2);

    manager.remove_session(1);

    assert_eq!(manager.active_index(), 1);
}

#[test]
fn test_session_manager_remove_active_session() {
    let mut manager: SessionManager<u32> = SessionManager::new();
    manager.init_from_worktrees(vec![
        make_worktree("main", true),
        make_worktree("feature1", false),
        make_worktree("feature2", false),
    ]);
    manager.switch_to(1);

    manager.remove_session(1);

    assert_eq!(manager.active_index(), 1);
    assert_eq!(manager.sessions()[manager.active_index()].name(), "feature2");
}

#[test]
fn test_session_manager_switch_to() {
    let mut manager: SessionManager<u32> = SessionManager::new();
    manager.init_from_worktrees(vec![make_worktree("main", true), make_worktree("feature1", false)]);

    manager.switch_to(1);

    assert_eq!(manager.active_index(), 1);
    assert!(manager.sessions()[1].is_visible_in_parallel());
}

#[test]
fn session_manager_switch_updates_statuses() {
    let mut manager: SessionManager<u32> = SessionManager::new();
    manager.init_from_worktrees(vec![make_worktree("a", false), make_worktree("b", false)]);
    manager.ensure_active_session_terminal(|_| 1);
    manager.add_terminal_to_session(1, |_| 2);
    manager.switch_to(1);
    assert_eq!(manager.sessions()[0].status(), SessionStatus::Running);
    assert_eq!(manager.sessions()[1].status(), SessionStatus::Focused);
    manager.clear_session_terminals(0);
    manager.switch_to(0);
    assert_eq!(manager.sessions()[0].status(), SessionStatus::Stopped);
    assert_eq!(manager.sessions()[1].status(), SessionStatus::Running);
    manager.switch_to(9);
    assert_eq!(manager.active_index(), 0);
}

#[test]
fn test_session_manager_next_session() {
    let mut manager: SessionManager<u32> = SessionManager::new();
    manager.init_from_worktrees(vec![
        make_worktree("s0", false),
        make_worktree("s1", false),
        make_worktree("s2", false),
    ]);

    manager.next_session();
    assert_eq!(manager.active_index(), 1);

    manager.next_session();
    assert_eq!(manager.active_index(), 2);

    manager.next_session();
    assert_eq!(manager.active_index(), 0);
}

#[test]
fn test_session_manager_prev_session() {
    let mut manager: SessionManager<u32> = SessionManager::new();
    manager.init_from_worktrees(vec![
        make_worktree("s0", false),
        make_worktree("s1", false),
        make_worktree("s2", false),
    ]);

    manager.prev_session();
    assert_eq!(manager.active_index(), 2);

    manager.prev_session();
    assert_eq!(manager.active_index(), 1);

    manager.prev_session();
    assert_eq!(manager.active_index(), 0);
}

#[test]
fn session_manager_next_then_prev_returns() {
    let mut manager: SessionManager<u32> = SessionManager::new();
    manager.init_from_worktrees(vec![make_worktree("s0", false), make_worktree("s1", false)]);
    manager.switch_to(1);
    manager.next_session();
    manager.prev_session();
    assert_eq!(manager.active_index(), 1);
}

#[test]
fn test_session_manager_toggle_layout_mode() {
    let mut manager: SessionManager<u32> = SessionManager::new();

    assert_eq!(manager.layout_mode(), LayoutMode::Single);

    manager.toggle_layout_mode();
    assert_eq!(manager.layout_mode(), LayoutMode::Parallel);

    manager.toggle_layout_mode();
    assert_eq!(manager.layout_mode(), LayoutMode::Single);
}

#[test]
fn test_session_manager_toggle_parallel_visibility() {
    let mut manager: SessionManager<u32> = SessionManager::new();
    manager.init_from_worktrees(vec![make_worktree("s0", false), make_worktree("s1", false)]);

    assert!(!manager.sessions()[0].is_visible_in_parallel());

    manager.toggle_parallel_visibility(0);
    assert!(manager.sessions()[0].is_visible_in_parallel());

    manager.toggle_parallel_visibility(0);
    assert!(!manager.sessions()[0].is_visible_in_parallel());
}

#[test]
fn test_session_manager_parallel_sessions() {
    let mut manager: SessionManager<u32> = SessionManager::new();
    manager.init_from_worktrees(vec![
        make_worktree("s0", false),
        make_worktree("s1", false),
        make_worktree("s2", false),
    ]);

    manager.toggle_parallel_visibility(0);
    manager.toggle_parallel_visibility(2);

    let parallel = manager.parallel_sessions();
    assert_eq!(parallel.len(), 2);
    assert_eq!(parallel[0].0, 0);
    assert_eq!(parallel[1].0, 2);
}

#[test]
fn test_session_manager_sync_with_worktrees_add() {
    let mut manager: SessionManager<u32> = SessionManager::new();
    manager.init_from_worktrees(vec![make_worktree("main", true)]);

    let worktrees = vec![make_worktree("main", true), make_worktree("new_feature", false)];

    let (added, removed, _updated) = manager.sync_with_worktrees(worktrees);

    assert_eq!(added, 1);
    assert_eq!(removed, 0);
    assert_eq!(manager.len(), 2);
}

#[test]
fn test_session_manager_sync_with_worktrees_remove() {
    let mut manager: SessionManager<u32> = SessionManager::new();
    manager.init_from_worktrees(vec![make_worktree("main", true), make_worktree("to_remove", false)]);

    let worktrees = vec![make_worktree("main", true)];

    let (added, removed, _updated) = manager.sync_with_worktrees(worktrees);

    assert_eq!(added, 0);
    assert_eq!(removed, 1);
    assert_eq!(manager.len(), 1);
}

#[test]
fn test_session_manager_sync_with_worktrees_update() {
    let mut manager: SessionManager<u32> = SessionManager::new();
    manager.init_from_worktrees(vec![make_worktree("main", true)]);

    let mut updated_worktree = make_worktree("main", true);
    updated_worktree.locked = true;

    let worktrees = vec![updated_worktree];
    let (_added, _removed, updated) = manager.sync_with_worktrees(worktrees);

    assert_eq!(updated, 1);
    assert!(manager.sessions()[0].is_locked());
}

#[test]
fn session_manager_sync_keeps_active_session() {
    let mut manager: SessionManager<u32> = SessionManager::new();
    manager.init_from_worktrees(vec![
        make_worktree("a", false),
        make_worktree("b", false),
        make_worktree("c", false),
        make_worktree("d", false),
    ]);
    manager.switch_to(2);
    let (added, removed, updated) =
        manager.sync_with_worktrees(vec![make_worktree("c", false), make_worktree("e", false)]);
    assert_eq!((added, removed, updated), (1, 3, 1));
    assert_eq!(manager.active_index(), 0);
    assert_eq!(manager.sessions()[0].name(), "c");
    assert_eq!(manager.sessions()[1].name(), "e");
    assert_eq!(manager.sessions()[1].color(), SessionColor::for_index(1));
    let again = manager.sync_with_worktrees(vec![make_worktree("c", false), make_worktree("e", false)]);
    assert_eq!(again, (0, 0, 2));
}

#[test]
fn session_manager_sync_active_removed_moves_to_last_kept() {
    let mut manager: SessionManager<u32> = SessionManager::new();
    manager.init_from_worktrees(vec![
        make_worktree("a", false),
        make_worktree("b", false),
        make_worktree("c", false),
    ]);
    manager.switch_to(2);
    manager.sync_with_worktrees(vec![make_worktree("a", false), make_worktree("b", false)]);
    assert_eq!(manager.active_index(), 1);
    manager.sync_with_worktrees(vec![]);
    assert_eq!(manager.len(), 0);
    assert_eq!(manager.active_index(), 0);
    assert!(manager.active_session().is_none());
}

#[test]
fn test_session_manager_find_session_by_path() {
    let mut manager: SessionManager<u32> = SessionManager::new();
    manager.init_from_worktrees(vec![make_worktree("s0", false), make_worktree("s1", false)]);

    let found = manager.find_session_by_path("/worktrees/s1");
    assert_eq!(found, Some(1));

    let not_found = manager.find_session_by_path("/worktrees/nonexistent");
    assert_eq!(not_found, None);
}

#[test]
fn test_session_manager_running_session_count() {
    let manager: SessionManager<u32> = SessionManager::new();
    assert_eq!(manager.running_session_count(), 0);
}

#[test]
fn session_manager_counts_terminals() {
    let mut manager: SessionManager<u32> = SessionManager::new();
    manager.init_from_worktrees(vec![make_worktree("a", false), make_worktree("b", false)]);
    manager.add_terminal_to_active_session(|_| 1);
    manager.add_terminal_to_active_session(|_| 2);
    manager.ensure_session_terminal(0, |_| 3);
    assert_eq!(manager.running_session_count(), 1);
    assert_eq!(manager.total_terminal_count(), 2);
    assert_eq!(manager.active_terminal(), Some(2));
    assert_eq!(manager.get_session_active_terminal(1), None);
    manager.ensure_active_session_terminal_in("/elsewhere".to_string(), |_| 4);
    assert_eq!(manager.total_terminal_count(), 2);
    assert!(manager.update_session_worktree(&make_worktree("b", true)));
    assert!(!manager.sessions()[1].is_main());
    assert!(!manager.update_session_worktree(&make_worktree("zz", true)));
}

#[test]
fn deleting_a_session_picks_a_replacement() {
    let mut manager: SessionManager<u32> = SessionManager::new();
    manager.init_from_worktrees(vec![
        make_worktree("a", false),
        make_worktree("main", true),
        make_worktree("b", false),
    ]);
    assert_eq!(manager.replacement_for_deletion(0), Some(1));
    assert_eq!(manager.replacement_for_deletion(2), None);
    manager.switch_to(2);
    assert_eq!(manager.replacement_for_deletion(2), Some(1));
    assert_eq!(manager.deletable_worktree(1), None);
    assert_eq!(manager.deletable_worktree(5), None);
    assert_eq!(
        manager.deletable_worktree(2),
        Some(("b".to_string(), "/worktrees/b".to_string()))
    );

    let mut no_main: SessionManager<u32> = SessionManager::new();
    no_main.init_from_worktrees(vec![make_worktree("x", false), make_worktree("y", false)]);
    assert_eq!(no_main.replacement_for_deletion(0), Some(1));
    no_main.switch_to(1);
    assert_eq!(no_main.replacement_for_deletion(1), Some(0));
}
