use claude_terminal::codec::{decode_configs, encode_configs};
use claude_terminal::config::ConfigProfile;
use claude_terminal::database::{sort_by_created, Database};
use claude_terminal::errors::TerminalError;
use claude_terminal::session::{TerminalConfig, TerminalStatus};

fn descriptor(id: &str, label: &str, created_at: i64) -> TerminalConfig {
    TerminalConfig {
        id: id.to_string(),
        label: label.to_string(),
        profile_id: None,
        working_directory: "/tmp".to_string(),
        claude_args: vec!["--verbose".to_string()],
        env_vars: vec![("KEY".to_string(), "value".to_string())],
        created_at,
        status: TerminalStatus::Running,
        color_tag: Some("blue".to_string()),
        nickname: None,
    }
}

fn same_descriptor(a: &TerminalConfig, b: &TerminalConfig) -> bool {
    a.id == b.id && a.label == b.label && a.profile_id == b.profile_id
        && a.working_directory == b.working_directory && a.claude_args == b.claude_args
        && a.env_vars == b.env_vars && a.created_at == b.created_at && a.status == b.status
        && a.color_tag == b.color_tag && a.nickname == b.nickname
}

#[test]
fn persist_then_restore_returns_the_list_sorted_by_timestamp() {
    let mut db = Database::new();
    let d = vec![
        descriptor("id-c", "third", 30),
        descriptor("id-a", "first", 10),
        descriptor("id-b", "second", 20),
    ];
    db.save_last_session(&d).unwrap();
    let restored = db.load_last_session().unwrap().expect("a record must exist");
    assert_eq!(restored.len(), 3);
    assert!(same_descriptor(&restored[0], &d[1]));
    assert!(same_descriptor(&restored[1], &d[2]));
    assert!(same_descriptor(&restored[2], &d[0]));
}

#[test]
fn empty_last_session_is_indistinguishable_from_never_persisted() {
    let mut db = Database::new();
    db.save_last_session(&vec![descriptor("x", "x", 1)]).unwrap();
    db.save_last_session(&Vec::new()).unwrap();
    let restored = db.load_last_session().unwrap();
    assert!(restored.is_none());
    let fresh = Database::new();
    assert!(fresh.load_last_session().unwrap().is_none());
}

#[test]
fn clear_last_session_deletes_the_record() {
    let mut db = Database::new();
    db.save_last_session(&vec![descriptor("x", "x", 1)]).unwrap();
    db.clear_last_session().unwrap();
    assert!(db.load_last_session().unwrap().is_none());
}

#[test]
fn snapshot_orders_by_creation_timestamp_in_either_insertion_order() {
    let earlier = descriptor("id-1", "one", 100);
    let later = descriptor("id-2", "two", 200);
    let sorted_a = sort_by_created(&vec![earlier.clone(), later.clone()]);
    let sorted_b = sort_by_created(&vec![later.clone(), earlier.clone()]);
    assert_eq!(sorted_a[0].id, "id-1");
    assert_eq!(sorted_a[1].id, "id-2");
    assert_eq!(sorted_b[0].id, "id-1");
    assert_eq!(sorted_b[1].id, "id-2");
}

#[test]
fn workspace_round_trip_keeps_the_given_order() {
    let mut db = Database::new();
    let d = vec![descriptor("id-z", "z", 50), descriptor("id-a", "a", 5)];
    db.save_workspace("project", &d).unwrap();
    let loaded = db.load_workspace("project").unwrap();
    assert_eq!(loaded.len(), 2);
    assert!(same_descriptor(&loaded[0], &d[0]));
    assert!(same_descriptor(&loaded[1], &d[1]));
}

#[test]
fn workspace_names_are_validated() {
    let mut db = Database::new();
    assert!(matches!(
        db.save_workspace("", &Vec::new()),
        Err(TerminalError::ValidationFailure(_))
    ));
    let long = "x".repeat(256);
    assert!(matches!(
        db.save_workspace(&long, &Vec::new()),
        Err(TerminalError::ValidationFailure(_))
    ));
    assert!(matches!(
        db.save_workspace("__last_session__", &Vec::new()),
        Err(TerminalError::ValidationFailure(_))
    ));
    assert!(db.save_workspace("ok", &Vec::new()).is_ok());
}

#[test]
fn loading_a_missing_workspace_is_not_found() {
    let db = Database::new();
    assert!(matches!(
        db.load_workspace("nowhere"),
        Err(TerminalError::NotFound)
    ));
}

#[test]
fn codec_round_trip_preserves_every_field() {
    let mut source = descriptor("id-1", "caf\u{e9} label", -7);
    source.profile_id = Some("profile".to_string());
    source.nickname = Some("nick".to_string());
    source.status = TerminalStatus::Stopped;
    let payload = encode_configs(&vec![source.clone()]);
    let decoded = decode_configs(&payload).unwrap();
    assert_eq!(decoded.len(), 1);
    assert!(same_descriptor(&decoded[0], &source));

    let empty = encode_configs(&Vec::new());
    assert!(decode_configs(&empty).unwrap().is_empty());
}

#[test]
fn malformed_payload_is_a_serialization_failure() {
    assert!(matches!(
        decode_configs(&vec!['x']),
        Err(TerminalError::SerializationFailure(_))
    ));
}

#[test]
fn profiles_are_upserted_and_deleted_by_id() {
    let mut db = Database::new();
    let profile = ConfigProfile {
        id: "p1".to_string(),
        name: "default".to_string(),
        description: None,
        working_directory: "/work".to_string(),
        claude_args: Vec::new(),
        env_vars: Vec::new(),
        is_default: true,
    };
    db.save_profile(&profile).unwrap();
    let mut renamed = profile.clone();
    renamed.name = "renamed".to_string();
    db.save_profile(&renamed).unwrap();
    let stored = db.get_profiles();
    assert_eq!(stored.len(), 1);
    assert_eq!(stored[0].name, "renamed");
    db.delete_profile("p1").unwrap();
    assert!(db.get_profiles().is_empty());

    let unnamed = ConfigProfile { name: String::new(), ..profile };
    assert!(matches!(
        db.save_profile(&unnamed),
        Err(TerminalError::ValidationFailure(_))
    ));
}
