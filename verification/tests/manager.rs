use claude_terminal::errors::TerminalError;
use claude_terminal::relay::{next_reader_action, ReaderAction};
use claude_terminal::session::TerminalStatus;
use claude_terminal::terminal::TerminalManager;

fn create_plain(manager: &mut TerminalManager, label: &str) -> String {
    let (config, _reader) = manager
        .create_terminal(
            label.to_string(),
            String::new(),
            Vec::new(),
            Vec::new(),
            None,
            None,
        )
        .expect("creating a session should succeed");
    config.id
}

#[test]
fn created_sessions_have_distinct_ids_and_all_are_listed() {
    let mut manager = TerminalManager::new();
    let a = create_plain(&mut manager, "one");
    let b = create_plain(&mut manager, "two");
    let c = create_plain(&mut manager, "three");
    assert_ne!(a, b);
    assert_ne!(a, c);
    assert_ne!(b, c);
    assert_eq!(a.len(), 36);
    let listed = manager.get_all_configs();
    assert_eq!(listed.len(), 3);
    assert!(listed.iter().any(|d| d.id == a));
    assert!(listed.iter().any(|d| d.id == b));
    assert!(listed.iter().any(|d| d.id == c));
    manager.close_all();
}

#[test]
fn operations_on_unknown_id_fail_with_not_found_and_touch_nothing() {
    let mut manager = TerminalManager::new();
    let id = create_plain(&mut manager, "only");
    assert!(matches!(
        manager.write("no-such-id", b"hello"),
        Err(TerminalError::NotFound)
    ));
    assert!(matches!(
        manager.resize("no-such-id", 80, 24),
        Err(TerminalError::NotFound)
    ));
    assert!(matches!(
        manager.update_label("no-such-id", "x".to_string()),
        Err(TerminalError::NotFound)
    ));
    assert!(matches!(
        manager.update_nickname("no-such-id", "x".to_string()),
        Err(TerminalError::NotFound)
    ));
    assert!(matches!(
        manager.close("no-such-id"),
        Err(TerminalError::NotFound)
    ));
    let listed = manager.get_all_configs();
    assert_eq!(listed.len(), 1);
    assert_eq!(listed[0].id, id);
    assert_eq!(listed[0].label, "only");
    manager.close_all();
}

#[test]
fn create_write_close_scenario() {
    let mut manager = TerminalManager::new();
    let (config, _reader) = manager
        .create_terminal(
            "build".to_string(),
            "/tmp".to_string(),
            vec!["--version".to_string()],
            Vec::new(),
            None,
            None,
        )
        .expect("creating the session should succeed");
    assert!(matches!(config.status, TerminalStatus::Running));
    assert_eq!(config.label, "build");
    assert_eq!(config.working_directory, "/tmp");
    assert_eq!(config.claude_args, vec!["--version".to_string()]);
    assert_eq!(config.id.len(), 36);
    let id = config.id.clone();
    assert!(manager.write(&id, b"\n").is_ok());
    assert!(manager.close(&id).is_ok());
    assert!(matches!(
        manager.write(&id, b"\n"),
        Err(TerminalError::NotFound)
    ));
    assert!(!manager.get_all_configs().iter().any(|d| d.id == id));
}

#[test]
fn close_all_empties_the_registry() {
    let mut manager = TerminalManager::new();
    create_plain(&mut manager, "a");
    create_plain(&mut manager, "b");
    assert_eq!(manager.get_all_configs().len(), 2);
    manager.close_all();
    assert!(manager.get_all_configs().is_empty());
}

#[test]
fn update_label_and_nickname_change_only_that_session() {
    let mut manager = TerminalManager::new();
    let a = create_plain(&mut manager, "first");
    let b = create_plain(&mut manager, "second");
    assert!(manager.update_label(&a, "renamed".to_string()).is_ok());
    assert!(manager.update_nickname(&b, "nick".to_string()).is_ok());
    let listed = manager.get_all_configs();
    let da = listed.iter().find(|d| d.id == a).unwrap();
    let db = listed.iter().find(|d| d.id == b).unwrap();
    assert_eq!(da.label, "renamed");
    assert_eq!(da.nickname, None);
    assert_eq!(db.label, "second");
    assert_eq!(db.nickname, Some("nick".to_string()));
    manager.close_all();
}

#[test]
fn resize_succeeds_on_a_live_session() {
    let mut manager = TerminalManager::new();
    let id = create_plain(&mut manager, "sized");
    assert!(manager.resize(&id, 100, 40).is_ok());
    assert!(manager.resize(&id, 100, 40).is_ok());
    manager.close_all();
}

#[test]
fn reader_receives_the_child_output() {
    let mut manager = TerminalManager::new();
    let (config, mut reader) = manager
        .create_terminal(
            "echo".to_string(),
            String::new(),
            vec!["-c".to_string(), "printf 'one two'".to_string()],
            Vec::new(),
            None,
            None,
        )
        .expect("creating the session should succeed");
    let mut collected: Vec<u8> = Vec::new();
    let mut reads: usize = 0;
    while !String::from_utf8_lossy(&collected).contains("one two") && reads < 64 {
        match next_reader_action(&mut reader) {
            ReaderAction::Forward(data) => collected.extend(data),
            ReaderAction::Stop | ReaderAction::StopLogging(_) => break,
        }
        reads += 1;
    }
    assert!(String::from_utf8_lossy(&collected).contains("one two"));
    manager.close(&config.id).unwrap();
    loop {
        match next_reader_action(&mut reader) {
            ReaderAction::Forward(data) => collected.extend(data),
            ReaderAction::Stop | ReaderAction::StopLogging(_) => break,
        }
    }
}
