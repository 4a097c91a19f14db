use agent_harness::message::ToolInput;
use agent_harness::skill::{get_skill_registry, SkillSource};
use agent_harness::team::MessageType;
use agent_harness::tools::{
    check_in_workspace, path_within, run_bash_refusal, BackgroundRunTool, BashTool,
    BroadcastTool, CheckBackgroundTool, CompactTool, CronCreateTool, CronDeleteTool, CronListTool,
    ListTeammatesTool, LoadSkillTool, PlanApprovalReviewTool, PlanApprovalSubmitTool,
    ReadInboxTool, SendMessageTool, ShutdownResponseStatusTool, ShutdownResponseTool,
    SpawnTeammateTool, SubAgentTool, WriteFileTool,
};

fn input(strings: &[(&str, &str)], bools: &[(&str, bool)]) -> ToolInput {
    ToolInput::new(
        "{}".to_string(),
        strings.iter().map(|(k, v)| (k.to_string(), v.to_string())).collect(),
        bools.iter().map(|(k, v)| (k.to_string(), *v)).collect(),
    )
}

#[test]
fn bash_refuses_dangerous_commands() {
    assert!(BashTool::is_dangerous("sudo ls"));
    assert!(BashTool::is_dangerous("echo x > /dev/sda"));
    assert!(!BashTool::is_dangerous("ls -la"));
    let tool = BashTool;
    assert_eq!(tool.command_to_run(&input(&[], &[])).unwrap_err(), "Invalid command");
    assert_eq!(tool.command_to_run(&input(&[("command", "reboot now")], &[])).unwrap_err(), "Error: Dangerous command blocked");
    assert_eq!(tool.command_to_run(&input(&[("command", "ls")], &[])).unwrap(), "ls");
    assert_eq!(BashTool::finished("  out \n"), "out");
    assert_eq!(BashTool::finished(""), "(no output)");
    assert_eq!(BashTool::timed_out(), "Error: Timeout (120s)");
    assert_eq!(run_bash_refusal("shutdown -h").as_deref(), Some("Error: Dangerous command blocked"));
    assert!(run_bash_refusal("pwd").is_none());
    assert_eq!(tool.name(), "bash");
}

#[test]
fn workspace_paths() {
    assert!(path_within("/w", "/w"));
    assert!(path_within("/w", "/w/src/lib.rs"));
    assert!(!path_within("/w", "/work/x"));
    assert!(path_within("/", "/etc"));
    assert_eq!(check_in_workspace("/w", "/etc/passwd").unwrap_err(), "Path escapes workspace");
    assert!(check_in_workspace("/w", "/w/a").is_ok());
}

#[test]
fn write_file_counts_bytes() {
    let tool = WriteFileTool;
    assert_eq!(WriteFileTool::written("héllo", "a.txt"), "Wrote 6 bytes to a.txt");
    assert_eq!(WriteFileTool::written("", "b"), "Wrote 0 bytes to b");
    assert_eq!(tool.arguments(&input(&[("content", "x")], &[])).unwrap_err(), "Invalid path");
    assert_eq!(tool.arguments(&input(&[("path", "p")], &[])).unwrap_err(), "Invalid content");
    assert_eq!(tool.arguments(&input(&[("path", "p"), ("content", "c")], &[])).unwrap(), ("p".to_string(), "c".to_string()));
}

#[test]
fn load_skill_reads_the_registry() {
    let registry = get_skill_registry(
        "skills".to_string(),
        vec![SkillSource {
            path: "skills/git/SKILL.md".to_string(),
            dir_name: Some("git".to_string()),
            name: None,
            description: Some("git help".to_string()),
            body: "use git".to_string(),
        }],
    );
    let tool = LoadSkillTool::new(registry);
    assert_eq!(tool.invoke(&input(&[], &[])).unwrap_err(), "Invalid name");
    assert_eq!(tool.invoke(&input(&[("name", "git")], &[])).unwrap(), "<skill name=\"git\">\nuse git\n</skill>");
    assert_eq!(tool.name(), "load_skill");
}

#[test]
fn compact_and_task_tools() {
    let compact = CompactTool;
    assert_eq!(compact.invoke(), "Compacting conversation...");
    assert_eq!(compact.focus(&input(&[("focus", "tests")], &[])).as_deref(), Some("tests"));
    let task = SubAgentTool;
    assert_eq!(task.arguments(&input(&[], &[])).unwrap_err(), "Invalid prompt");
    let (p, d) = task.arguments(&input(&[("prompt", "go"), ("description", "d")], &[])).unwrap();
    assert_eq!((p.as_str(), d.as_deref()), ("go", Some("d")));
}

#[test]
fn scheduling_and_team_inputs() {
    let (c, p, r, d) = CronCreateTool.arguments(&input(&[("cron", "0 * * * * *"), ("prompt", "x")], &[])).unwrap();
    assert_eq!((c.as_str(), p.as_str(), r, d), ("0 * * * * *", "x", true, false));
    let (_, _, r, d) = CronCreateTool.arguments(&input(&[("cron", "c"), ("prompt", "x")], &[("recurring", false), ("durable", true)])).unwrap();
    assert_eq!((r, d), (false, true));
    assert_eq!(CronCreateTool.arguments(&input(&[("prompt", "x")], &[])).unwrap_err(), "Invalid cron");

    let (to, content, t) = SendMessageTool.arguments(&input(&[("to", "bob"), ("content", "hi")], &[])).unwrap();
    assert_eq!((to.as_str(), content.as_str(), t), ("bob", "hi", MessageType::Message));
    let (_, _, t) = SendMessageTool.arguments(&input(&[("to", "bob"), ("content", "hi"), ("msg_type", "broadcast")], &[])).unwrap();
    assert_eq!(t, MessageType::Broadcast);
    assert_eq!(
        SendMessageTool.arguments(&input(&[("to", "bob"), ("content", "hi"), ("msg_type", "shout")], &[])).unwrap_err(),
        "Matching variant not found"
    );

    let (id, approve, text) = ShutdownResponseTool.arguments(&input(&[("request_id", "1")], &[("approve", true)])).unwrap();
    assert_eq!((id.as_str(), approve, text.as_str()), ("1", true, ""));
    assert_eq!(ShutdownResponseTool.arguments(&input(&[("request_id", "1")], &[])).unwrap_err(), "Invalid approve");

    assert_eq!(SpawnTeammateTool.arguments(&input(&[("name", "a"), ("prompt", "p")], &[])).unwrap_err(), "Invalid role");
}

#[test]
fn tool_names_and_single_field_inputs() {
    assert_eq!(CronCreateTool.name(), "cron_create");
    assert_eq!(CronDeleteTool.name(), "cron_delete");
    assert_eq!(CronListTool.name(), "cron_list");
    assert_eq!(BackgroundRunTool.name(), "background_run");
    assert_eq!(CheckBackgroundTool.name(), "check_background");
    assert_eq!(SpawnTeammateTool.name(), "spawn_teammate");
    assert_eq!(ListTeammatesTool.name(), "list_teammates");
    assert_eq!(BroadcastTool.name(), "broadcast");
    assert_eq!(SendMessageTool.name(), "send_message");
    assert_eq!(ReadInboxTool.name(), "read_inbox");
    assert_eq!(ShutdownResponseTool.name(), "shutdown_response");
    assert_eq!(ShutdownResponseStatusTool.name(), "shutdown_response");
    assert_eq!(PlanApprovalSubmitTool.name(), "plan_approval");
    assert_eq!(PlanApprovalReviewTool.name(), "plan_approval");

    assert_eq!(CronDeleteTool.arguments(&input(&[("id", "t1")], &[])).unwrap(), "t1");
    assert_eq!(CronDeleteTool.arguments(&input(&[], &[])).unwrap_err(), "Invalid id");
    assert_eq!(BackgroundRunTool.arguments(&input(&[("command", "ls")], &[])).unwrap(), "ls");
    assert_eq!(BackgroundRunTool.arguments(&input(&[], &[])).unwrap_err(), "Invalid command");
    assert_eq!(CheckBackgroundTool.arguments(&input(&[("task_id", "a1")], &[])).as_deref(), Some("a1"));
    assert_eq!(CheckBackgroundTool.arguments(&input(&[], &[])), None);
    assert_eq!(BroadcastTool.arguments(&input(&[], &[])).unwrap_err(), "Invalid content");
    assert_eq!(ShutdownResponseStatusTool.arguments(&input(&[], &[])).unwrap_err(), "Invalid request_id");
    assert_eq!(PlanApprovalSubmitTool.arguments(&input(&[("plan", "p")], &[])).unwrap(), "p");
    assert_eq!(PlanApprovalSubmitTool.arguments(&input(&[], &[])).unwrap_err(), "Invalid plan");
    let (id, approve, feedback) =
        PlanApprovalReviewTool.arguments(&input(&[("request_id", "r"), ("feedback", "ok")], &[("approve", false)])).unwrap();
    assert_eq!((id.as_str(), approve, feedback.as_str()), ("r", false, "ok"));
    assert_eq!(PlanApprovalReviewTool.arguments(&input(&[], &[("approve", true)])).unwrap_err(), "Invalid request_id");
}
