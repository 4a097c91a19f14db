use agent_harness::team::{
    inbox_lines, inbox_message_text, plan_review_reply, plan_submitted_reply, shutdown_request_reply,
    shutdown_response_reply, teammate_system_prompt, MessageType, RequestKind, RequestRecord,
    RequestStatus, SharedMessageBus, SharedRequestStore, TeamConfig, TeammateStatus,
};

#[test]
fn spawning_and_finishing_members() {
    let mut team = TeamConfig::default_config();
    assert_eq!(team.list_all(), "No teammates.");
    let out = team.spawn_member("alice", "coder");
    assert!(out.started);
    assert_eq!(out.reply, "Spawned 'alice' (role: coder)");
    let again = team.spawn_member("alice", "tester");
    assert!(!again.started);
    assert_eq!(again.reply, "Error: 'alice' is currently working");
    assert_eq!(team.members[0].role, "coder");
    assert!(team.finish_member("alice", true));
    assert_eq!(team.members[0].status, TeammateStatus::Idle);
    let back = team.spawn_member("alice", "tester");
    assert!(back.started);
    assert_eq!(team.members.len(), 1);
    assert_eq!(team.members[0].role, "tester");
    assert!(!team.finish_member("bob", true));
    assert_eq!(team.list_all(), "Team: default\n  alice (tester): working");
    assert_eq!(team.member_names(), vec!["alice".to_string()]);
}

#[test]
fn a_failed_loop_keeps_a_shutdown_member_shut_down() {
    let mut team = TeamConfig::default_config();
    team.spawn_member("bob", "helper");
    team.finish_member_with_protocol("bob", true);
    assert_eq!(team.members[0].status, TeammateStatus::Shutdown);
    team.finish_member("bob", false);
    assert_eq!(team.members[0].status, TeammateStatus::Shutdown);
    team.finish_member("bob", true);
    assert_eq!(team.members[0].status, TeammateStatus::Idle);
    team.finish_member_with_protocol("bob", false);
    assert_eq!(team.members[0].status, TeammateStatus::Idle);
}

#[test]
fn broadcasts_skip_the_sender() {
    let bus = SharedMessageBus::new(".team");
    assert_eq!(bus.inbox_dir, ".team/inbox");
    assert_eq!(bus.inbox_path("alice"), ".team/inbox/alice.jsonl");
    assert_eq!(bus.register_mailbox("bob"), ".team/inbox/bob.jsonl");
    let names = vec!["lead".to_string(), "alice".to_string(), "bob".to_string()];
    let plan = bus.broadcast("lead", &names);
    assert_eq!(plan.recipients, vec!["alice".to_string(), "bob".to_string()]);
    assert_eq!(plan.reply, "Broadcast to 2 teammates");
    assert_eq!(bus.sent_reply(MessageType::ShutdownRequest, "bob"), "Sent shutdown_request to bob");
}

#[test]
fn inbox_lines_skip_blank_lines() {
    let content = "{\"a\":1}\r\n\n   \n{\"b\":2}";
    assert_eq!(inbox_lines(content), vec!["{\"a\":1}".to_string(), "{\"b\":2}".to_string()]);
    assert!(inbox_lines("").is_empty());
    assert!(inbox_lines(" \n \n").is_empty());
    assert_eq!(inbox_lines("x\n"), vec!["x".to_string()]);
}

#[test]
fn message_types_parse_by_name() {
    assert_eq!(MessageType::parse("plan_approval_response"), Some(MessageType::PlanApprovalResponse));
    assert_eq!(MessageType::parse("Message"), None);
    assert_eq!(MessageType::Broadcast.name(), "broadcast");
}

#[test]
fn request_records_follow_the_protocol() {
    let mut store = SharedRequestStore::new(".team", 0x10);
    assert_eq!(store.dir, ".team/requests");
    let id = store.next_request_id();
    assert_eq!(id, "00000010");
    assert_eq!(store.next_request_id(), "00000011");
    assert_eq!(store.path(&id), ".team/requests/00000010.json");

    let mut shutdown = RequestRecord::pending_shutdown(id.clone(), "alice", 5);
    assert_eq!(shutdown.kind, RequestKind::Shutdown);
    assert_eq!(shutdown.from_name, "lead");
    assert_eq!(shutdown.status, RequestStatus::Pending);
    shutdown.resolve_shutdown("alice", true, "done", 9);
    assert_eq!(shutdown.status, RequestStatus::Approved);
    assert_eq!(shutdown.resolved_by.as_deref(), Some("alice"));
    assert_eq!(shutdown.resolved_at, Some(9));
    let response = shutdown.response.as_ref().unwrap();
    assert!(response.approve);
    assert_eq!(response.message, "done");
    shutdown.touch(10);
    assert_eq!(shutdown.updated_at, 10);

    let mut plan = RequestRecord::pending_plan_approval("00000012".to_string(), "bob", "refactor", 3);
    assert_eq!(plan.to_name, "lead");
    assert_eq!(plan.plan.as_deref(), Some("refactor"));
    plan.review_plan(false, "", 4);
    assert_eq!(plan.status, RequestStatus::Rejected);
    assert_eq!(plan.feedback, None);
    assert_eq!(plan.reviewed_by.as_deref(), Some("lead"));
    plan.review_plan(true, "ok", 5);
    assert_eq!(plan.feedback.as_deref(), Some("ok"));
    assert_eq!(RequestStatus::Approved.name(), "approved");
    assert_eq!(RequestKind::PlanApproval.name(), "plan_approval");
}

#[test]
fn protocol_replies() {
    assert_eq!(shutdown_request_reply("1", "alice"), "Shutdown request 1 sent to 'alice' (status: pending)");
    assert_eq!(shutdown_response_reply(false, "9", true), "Error: Unknown shutdown request 9");
    assert_eq!(shutdown_response_reply(true, "9", false), "Shutdown rejected");
    assert_eq!(plan_review_reply("7", None, true), "Error: Unknown plan request_id '7'");
    assert_eq!(plan_review_reply("7", Some("bob"), true), "Plan approved for 'bob'");
    assert_eq!(plan_submitted_reply("7"), "Plan submitted (request_id=7). Waiting for lead approval.");
    assert_eq!(
        teammate_system_prompt("alice", "coder", "/w", false),
        "You are 'alice', role: coder, at /w. Use send_message to communicate. Complete your task."
    );
}

#[test]
fn inbox_message_is_shown_with_type_and_sender() {
    assert_eq!(
        inbox_message_text(MessageType::ShutdownRequest, "lead", "please stop"),
        "shutdown_request from lead: please stop"
    );
    assert_eq!(inbox_message_text(MessageType::Message, "bob", ""), "message from bob: ");
}

#[test]
fn request_ids_increase_until_the_counter_wraps() {
    let mut store = SharedRequestStore::new(".team", 0xffff_fffe);
    let ids: Vec<String> = (0..4).map(|_| store.next_request_id()).collect();
    assert_eq!(ids, vec!["fffffffe", "ffffffff", "100000000", "100000001"]);
    let values: Vec<u64> = ids.iter().map(|s| u64::from_str_radix(s, 16).unwrap()).collect();
    assert!(values.windows(2).all(|w| w[0] < w[1]));

    let mut top = SharedRequestStore::new(".team", u64::MAX);
    assert_eq!(top.next_request_id(), "ffffffffffffffff");
    assert_eq!(top.next_request_id(), "00000000");
}
