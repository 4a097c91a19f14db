use agent_harness::message::ToolInput;
use agent_harness::permission::{
    mode_command, switched_message, BashSecurityValidator, ModeCommand, PermissionBehavior,
    PermissionManager, PermissionMode, PermissionRule, UserPermissionChoice,
};

fn input(text: &str, strings: &[(&str, &str)]) -> ToolInput {
    ToolInput::new(
        text.to_string(),
        strings.iter().map(|(k, v)| (k.to_string(), v.to_string())).collect(),
        Vec::new(),
    )
}

#[test]
fn safe_command_passes_validation() {
    let validator = BashSecurityValidator::try_new().unwrap();

    assert!(validator.validate("ls -la src").is_empty());
    assert!(validator.is_safe("cargo test"));
    assert_eq!(validator.describe_failures("pwd"), "No issues detected");
}

#[test]
fn flags_shell_metacharacters() {
    let validator = BashSecurityValidator::try_new().unwrap();

    let failures = validator.validate("cat Cargo.toml | head");
    assert!(failures.iter().any(|f| f.name == "shell_metachar"));
}

#[test]
fn flags_sudo_usage() {
    let validator = BashSecurityValidator::try_new().unwrap();

    let failures = validator.validate("sudo apt install ripgrep");
    assert!(failures.iter().any(|f| f.name == "sudo"));
}

#[test]
fn flags_recursive_rm() {
    let validator = BashSecurityValidator::try_new().unwrap();

    let failures = validator.validate("rm -rf target");
    assert!(failures.iter().any(|f| f.name == "rm_rf"));
}

#[test]
fn flags_command_substitution() {
    let validator = BashSecurityValidator::try_new().unwrap();

    let failures = validator.validate("echo $(whoami)");
    assert!(failures.iter().any(|f| f.name == "shell_metachar"));
    assert!(failures.iter().any(|f| f.name == "cmd_substitution"));
}

#[test]
fn flags_ifs_assignment() {
    let validator = BashSecurityValidator::try_new().unwrap();

    let failures = validator.validate("IFS=, read -ra parts <<< \"$input\"");
    assert!(failures.iter().any(|f| f.name == "ifs_injection"));
}

#[test]
fn describe_failures_lists_all_hits() {
    let validator = BashSecurityValidator::try_new().unwrap();

    let description = validator.describe_failures("sudo rm -rf /tmp/test");
    assert!(description.contains("sudo"));
    assert!(description.contains("rm_rf"));
}

#[test]
fn deny_rules_match_before_mode_logic() {
    let mut manager = PermissionManager::try_new(PermissionMode::Default).unwrap();

    let decision = manager.check("bash", &input("{\"command\":\"sudo ls\"}", &[("command", "sudo ls")]));
    assert_eq!(decision.behavior, PermissionBehavior::Deny);
    assert!(decision.reason.contains("Bash validator"));
}

#[test]
fn bash_validator_can_escalate_to_ask() {
    let mut manager = PermissionManager::try_new(PermissionMode::Default).unwrap();

    let decision = manager.check(
        "bash",
        &input("{\"command\":\"cat Cargo.toml | head\"}", &[("command", "cat Cargo.toml | head")]),
    );
    assert_eq!(decision.behavior, PermissionBehavior::Ask);
    assert!(decision.reason.contains("Bash validator flagged"));
}

#[test]
fn plan_mode_blocks_write_tools() {
    let mut manager = PermissionManager::try_new(PermissionMode::Plan).unwrap();

    let decision = manager.check(
        "write_file",
        &input("{\"content\":\"x\",\"path\":\"a.txt\"}", &[("path", "a.txt"), ("content", "x")]),
    );
    assert_eq!(decision.behavior, PermissionBehavior::Deny);
    assert!(decision.reason.contains("Plan mode"));
}

#[test]
fn plan_mode_allows_reads() {
    let mut manager = PermissionManager::try_new(PermissionMode::Plan).unwrap();

    let decision = manager.check("read_file", &input("{\"path\":\"src/main.rs\"}", &[("path", "src/main.rs")]));
    assert_eq!(decision.behavior, PermissionBehavior::Allow);
}

#[test]
fn auto_mode_allows_read_only_tools() {
    let mut manager = PermissionManager::try_new(PermissionMode::Auto).unwrap();

    let decision = manager.check("read_file", &input("{\"path\":\"src/main.rs\"}", &[("path", "src/main.rs")]));
    assert_eq!(decision.behavior, PermissionBehavior::Allow);
    assert!(decision.reason.contains("Auto mode"));
}

#[test]
fn allow_rules_apply_after_mode_checks() {
    let rules = vec![PermissionRule::allow_tool("edit_file").with_path("src/*")];
    let mut manager = PermissionManager::try_new_with_rules(PermissionMode::Default, rules).unwrap();

    let decision = manager.check(
        "edit_file",
        &input(
            "{\"new_text\":\"b\",\"old_text\":\"a\",\"path\":\"src/lib.rs\"}",
            &[("path", "src/lib.rs"), ("old_text", "a"), ("new_text", "b")],
        ),
    );
    assert_eq!(decision.behavior, PermissionBehavior::Allow);
    assert!(decision.reason.contains("Matched allow rule"));
}

#[test]
fn unmatched_tool_falls_back_to_ask() {
    let mut manager = PermissionManager::try_new_with_rules(PermissionMode::Default, Vec::new()).unwrap();

    let decision = manager.check("edit_file", &input("{\"path\":\"src/lib.rs\"}", &[("path", "src/lib.rs")]));
    assert_eq!(decision.behavior, PermissionBehavior::Ask);
    assert!(decision.reason.contains("asking user"));
}

#[test]
fn tracks_consecutive_denials() {
    let mut manager = PermissionManager::try_new_with_rules(PermissionMode::Default, Vec::new()).unwrap();

    manager.consecutive_denials += 1;
    manager.consecutive_denials += 1;
    assert_eq!(manager.consecutive_denials, 2);

    manager.consecutive_denials = 0;
    assert_eq!(manager.consecutive_denials, 0);
}

#[test]
fn always_allow_adds_wildcard_rule() {
    let mut manager = PermissionManager::try_new_with_rules(PermissionMode::Default, Vec::new()).unwrap();

    let approved = manager.apply_user_choice(UserPermissionChoice::AlwaysAllow, "read_file");

    assert!(approved);
    assert_eq!(manager.rules.len(), 1);
    assert_eq!(manager.rules[0].tool, "read_file");
    assert_eq!(manager.rules[0].path.as_deref(), Some("*"));
    assert_eq!(manager.rules[0].behavior, PermissionBehavior::Allow);
}

#[test]
fn suggests_plan_mode_after_repeated_denials() {
    let mut manager = PermissionManager::try_new_with_rules(PermissionMode::Default, Vec::new()).unwrap();

    for _ in 0..manager.max_consecutive_denials {
        let approved = manager.apply_user_choice(UserPermissionChoice::Deny, "bash");
        assert!(!approved);
    }

    assert!(manager.should_suggest_plan_mode());
}

#[test]
fn content_rules_use_simple_glob_matching() {
    let rules = vec![PermissionRule::deny_tool_content("bash", "sudo *")];
    let mut manager = PermissionManager::try_new_with_rules(PermissionMode::Default, rules).unwrap();

    let decision = manager.check("bash", &input("{\"command\":\"sudo apt update\"}", &[("command", "sudo apt update")]));
    assert_eq!(decision.behavior, PermissionBehavior::Deny);
}

#[test]
fn content_glob_does_not_match_other_commands() {
    let rules = vec![PermissionRule::deny_tool_content("bash", "sudo *")];
    let mut manager = PermissionManager::try_new_with_rules(PermissionMode::Default, rules).unwrap();

    let decision = manager.check("bash", &input("{\"command\":\"ls\"}", &[("command", "ls")]));
    assert_ne!(decision.behavior, PermissionBehavior::Deny);
}

#[test]
fn allow_once_resets_denials() {
    let mut manager = PermissionManager::try_new_with_rules(PermissionMode::Default, Vec::new()).unwrap();
    assert!(!manager.apply_user_choice(UserPermissionChoice::Deny, "bash"));
    assert_eq!(manager.consecutive_denials, 1);
    assert!(manager.apply_user_choice(UserPermissionChoice::AllowOnce, "bash"));
    assert_eq!(manager.consecutive_denials, 0);
    assert!(manager.rules.is_empty());
}

#[test]
fn mode_command_reads_the_named_mode() {
    assert!(matches!(mode_command("/mode plan"), ModeCommand::Switch(PermissionMode::Plan)));
    assert!(matches!(mode_command("  /mode   auto "), ModeCommand::Switch(PermissionMode::Auto)));
    assert!(matches!(mode_command("/mode"), ModeCommand::Ask));
    match mode_command("/mode fast") {
        ModeCommand::Unknown(e) => assert_eq!(e, "unknown mode: fast. Usage: /mode <default|plan|auto>"),
        _ => panic!("expected an unknown mode"),
    }
    assert_eq!(switched_message(PermissionMode::Plan), "[Switched to plan - read only]");
}

#[test]
fn mode_parse_and_labels() {
    assert_eq!(PermissionMode::parse("default"), Some(PermissionMode::Default));
    assert_eq!(PermissionMode::parse("Plan"), None);
    assert_eq!(UserPermissionChoice::AlwaysAllow.label(), "always allow this tool");
}
