use claude_terminal::database::{snapshot, Database};
use claude_terminal::shutdown::shutdown;
use claude_terminal::terminal::TerminalManager;

#[test]
fn shutdown_persists_the_snapshot_then_closes_everything() {
    let mut manager = TerminalManager::new();
    let (first, _r1) = manager
        .create_terminal(
            "alpha".to_string(),
            String::new(),
            Vec::new(),
            Vec::new(),
            None,
            None,
        )
        .unwrap();
    let (second, _r2) = manager
        .create_terminal(
            "beta".to_string(),
            String::new(),
            Vec::new(),
            Vec::new(),
            None,
            None,
        )
        .unwrap();
    let mut db = Database::new();
    shutdown(&mut manager, &mut db);
    assert!(manager.get_all_configs().is_empty());
    let restored = db.load_last_session().unwrap().expect("a record must exist");
    assert_eq!(restored.len(), 2);
    assert!(restored.iter().any(|d| d.id == first.id));
    assert!(restored.iter().any(|d| d.id == second.id));
    assert!(restored[0].created_at <= restored[1].created_at);
}

#[test]
fn shutdown_with_no_sessions_leaves_no_record() {
    let mut manager = TerminalManager::new();
    let mut db = Database::new();
    shutdown(&mut manager, &mut db);
    assert!(manager.get_all_configs().is_empty());
    assert!(db.load_last_session().unwrap().is_none());
}

#[test]
fn snapshot_is_sorted_and_complete() {
    let mut manager = TerminalManager::new();
    let (a, _ra) = manager
        .create_terminal("a".to_string(), String::new(), Vec::new(), Vec::new(), None, None)
        .unwrap();
    let (b, _rb) = manager
        .create_terminal("b".to_string(), String::new(), Vec::new(), Vec::new(), None, None)
        .unwrap();
    let snap = snapshot(&manager);
    assert_eq!(snap.len(), 2);
    assert!(snap[0].created_at <= snap[1].created_at);
    assert!(snap.iter().any(|d| d.id == a.id));
    assert!(snap.iter().any(|d| d.id == b.id));
    manager.close_all();
}
