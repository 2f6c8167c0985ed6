use claude_terminal::commands::{
    check_system_requirements, evaluate_update_check, get_hints, install_claude_code,
    update_claude_code, version_from_output,
};
use claude_terminal::config::get_default_hints;
use claude_terminal::errors::TerminalError;

#[test]
fn version_output_is_trimmed() {
    assert_eq!(version_from_output("  1.0.17 (Assistant CLI)\n"), "1.0.17 (Assistant CLI)");
    assert_eq!(version_from_output("\n\t \n"), "");
    assert_eq!(version_from_output("plain"), "plain");
}

#[test]
fn update_check_compares_the_leading_version_number() {
    let r = evaluate_update_check("1.0.17 (Assistant CLI)\n", "1.0.18\n").unwrap();
    assert_eq!(r.current_version, "1.0.17 (Assistant CLI)");
    assert_eq!(r.latest_version, "1.0.18");
    assert!(r.update_available);

    let same = evaluate_update_check("1.0.18 (Assistant CLI)\n", "1.0.18\n").unwrap();
    assert!(!same.update_available);

    let bare = evaluate_update_check("2.1.0\n", "2.1.0").unwrap();
    assert!(!bare.update_available);
}

#[test]
fn update_check_rejects_missing_tool_or_missing_registry_answer() {
    assert!(matches!(
        evaluate_update_check("   \n", "1.0.18"),
        Err(TerminalError::ValidationFailure(_))
    ));
    assert!(matches!(
        evaluate_update_check("1.0.17", "  "),
        Err(TerminalError::IoFailure(_))
    ));
}

#[test]
fn update_and_install_outcomes_follow_the_exit_status() {
    assert_eq!(
        update_claude_code(true, "out", "err").unwrap(),
        "Assistant CLI updated successfully!"
    );
    match update_claude_code(false, "out", "err") {
        Err(TerminalError::IoFailure(m)) => assert_eq!(m, "errout"),
        _ => panic!("a failed update must surface the tool's output"),
    }
    assert_eq!(
        install_claude_code(true, "").unwrap(),
        "Assistant CLI installed successfully!"
    );
    match install_claude_code(false, "nope") {
        Err(TerminalError::IoFailure(m)) => assert_eq!(m, "nope"),
        _ => panic!("a failed install must surface the tool's error output"),
    }
}

#[test]
fn system_status_reflects_which_tools_answered() {
    let s = check_system_requirements(Some("v20".to_string()), None, Some("1.0".to_string()));
    assert!(s.node_installed);
    assert_eq!(s.node_version, Some("v20".to_string()));
    assert!(!s.npm_installed);
    assert_eq!(s.npm_version, None);
    assert!(s.claude_installed);
    assert_eq!(s.claude_version, Some("1.0".to_string()));
}

#[test]
fn hint_catalogue_has_the_fixed_shape() {
    let hints = get_default_hints();
    assert_eq!(hints.len(), 7);
    assert_eq!(hints[0].name, "Top 10 Commands");
    assert_eq!(hints[0].hints.len(), 10);
    assert_eq!(hints[1].name, "Getting Started");
    assert_eq!(hints[1].hints.len(), 4);
    assert_eq!(hints[2].name, "File Operations");
    assert_eq!(hints[3].name, "Git Operations");
    assert_eq!(hints[4].name, "Code Generation");
    assert_eq!(hints[5].name, "Debugging");
    assert_eq!(hints[6].name, "CLI Flags");
    assert_eq!(hints[6].hints.len(), 6);
    assert_eq!(hints[1].hints[0].command, "assistant");
    assert_eq!(get_hints().len(), 7);
}

#[test]
fn error_messages_are_the_boundary_texts() {
    assert_eq!(TerminalError::NotFound.message(), "Terminal not found");
    assert_eq!(
        TerminalError::IoFailure("Failed to write: broken pipe".to_string()).message(),
        "Failed to write: broken pipe"
    );
}
