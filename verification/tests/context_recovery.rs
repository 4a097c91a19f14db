use agent_harness::compact::{
    collect_tool_result_positions, compact_round_effects, fallback_context_size, fallback_context_size_checked, micro_compact, needs_persisting, persisted_output_file_name, persisted_output_notice,
    summary_prompt, CompactState,
};
use agent_harness::message::{extract_text, normalize_messages, ContentBlock, Message, MessageContent, Role, ToolInput};
use agent_harness::recovery::{
    backoff_delay, continuation_message, is_prompt_too_long_error, is_transient_transport_error,
    needs_auto_compact, recovered_context, RecoveryAction, RecoveryState, StopReason, TurnStep,
};

fn text(role: Role, s: &str) -> Message {
    Message { role, content: MessageContent::Text { content: s.to_string() } }
}

fn blocks(role: Role, b: Vec<ContentBlock>) -> Message {
    Message { role, content: MessageContent::Blocks { content: b } }
}

fn tool_use(id: &str, name: &str, strings: &[(&str, &str)]) -> ContentBlock {
    ContentBlock::ToolUse {
        id: id.to_string(),
        name: name.to_string(),
        input: ToolInput::new(
            "{}".to_string(),
            strings.iter().map(|(k, v)| (k.to_string(), v.to_string())).collect(),
            Vec::new(),
        ),
    }
}

#[test]
fn backoff_doubles_up_to_thirty_seconds() {
    assert_eq!(backoff_delay(0, 1234), 1234);
    assert_eq!(backoff_delay(1, 0), 2000);
    assert_eq!(backoff_delay(4, 999), 16999);
    assert_eq!(backoff_delay(5, 0), 30000);
    assert_eq!(backoff_delay(40, 1500), 30500);
}

#[test]
fn error_kinds() {
    assert!(is_prompt_too_long_error("prompt is too long"));
    assert!(is_prompt_too_long_error("exceeds context length"));
    assert!(!is_prompt_too_long_error("rate limit"));
    assert!(is_transient_transport_error("connection reset"));
    assert!(!is_transient_transport_error("invalid api key"));
}

#[test]
fn repeated_failures_stop() {
    let mut r = RecoveryState::new();
    for _ in 0..3 {
        assert!(matches!(r.on_request_error("overloaded", 0), RecoveryAction::Backoff { .. }));
    }
    assert!(matches!(r.on_request_error("overloaded", 0), RecoveryAction::Stop));
    r.on_request_ok();
    assert!(matches!(r.on_request_error("prompt too long", 0), RecoveryAction::Compact));
    assert!(matches!(r.on_request_error("bad request", 0), RecoveryAction::Stop));
}

#[test]
fn truncated_answers_are_continued() {
    let mut r = RecoveryState::new();
    assert_eq!(r.after_response(Some(StopReason::MaxTokens)), TurnStep::ContinueTruncated);
    assert_eq!(r.after_response(Some(StopReason::ToolUse)), TurnStep::RunTools);
    assert_eq!(r.after_response(None), TurnStep::RunTools);
    assert_eq!(r.after_response(Some(StopReason::EndTurn)), TurnStep::Finish);
    assert!(extract_text(&continuation_message().content).starts_with("Output limit hit."));
    assert!(needs_auto_compact(50_001));
    assert!(!needs_auto_compact(50_000));
    let ctx = recovered_context("S");
    assert_eq!(ctx.len(), 1);
    assert!(extract_text(&ctx[0].content).contains("S"));
}

#[test]
fn large_outputs_are_persisted() {
    assert!(!needs_persisting(&"a".repeat(30_000)));
    assert!(needs_persisting(&"a".repeat(30_001)));
    assert_eq!(persisted_output_file_name("toolu_1"), "toolu_1.txt");
    let notice = persisted_output_notice("out/x.txt", &"b".repeat(3000));
    assert!(notice.starts_with("<persisted-output>\nFull output saved to: out/x.txt\nPreview:\n"));
    assert_eq!(notice.matches('b').count(), 2000);
}

#[test]
fn recent_files_keep_the_last_five() {
    let mut state = CompactState::new();
    for name in ["a", "b", "c", "d", "e", "f", "b"] {
        state.remember_recent_file(name);
    }
    assert_eq!(state.recent_files, vec!["c", "d", "e", "f", "b"]);
    let context = state.finish_compaction("sum", Some("tests"));
    assert!(state.has_compacted);
    assert_eq!(
        extract_text(&context[0].content),
        "This conversation was compacted so the agent can continue working.\n\nsum\n\nFocus to preserve next:tests\n\nRecent files to reopen if needed:\n- c\n- d\n- e\n- f\n- b"
    );
    assert!(summary_prompt("{}").ends_with("\n\n{}"));
}

#[test]
fn round_effects_of_tool_calls() {
    let calls = vec![
        tool_use("1", "read_file", &[("path", "src/a.rs")]),
        tool_use("2", "compact", &[("focus", "x")]),
        tool_use("3", "compact", &[]),
        tool_use("4", "read_file", &[]),
    ];
    let (paths, manual, focus) = compact_round_effects(&calls);
    assert_eq!(paths, vec!["src/a.rs".to_string()]);
    assert!(manual);
    assert!(focus.is_none());
}

#[test]
fn normalization_answers_open_calls_and_merges_roles() {
    let msgs = vec![
        text(Role::User, "hi"),
        text(Role::User, "again"),
        blocks(Role::Assistant, vec![tool_use("t1", "bash", &[("command", "ls")])]),
    ];
    let out = normalize_messages(&msgs);
    for w in out.windows(2) {
        assert_ne!(w[0].role, w[1].role);
    }
    let answered = out.iter().any(|m| match &m.content {
        MessageContent::Blocks { content } => content.iter().any(|b| matches!(b, ContentBlock::ToolResult { tool_use_id, .. } if tool_use_id == "t1")),
        _ => false,
    });
    assert!(answered);
}

fn result(id: &str, content: &str) -> ContentBlock {
    ContentBlock::ToolResult { tool_use_id: id.to_string(), content: content.to_string() }
}

fn result_text(m: &Message, j: usize) -> String {
    match &m.content {
        MessageContent::Blocks { content } => match &content[j] {
            ContentBlock::ToolResult { content, .. } => content.clone(),
            _ => panic!("not a tool result"),
        },
        _ => panic!("not blocks"),
    }
}

fn compaction_transcript() -> Vec<Message> {
    let long = "x".repeat(200);
    vec![
        blocks(Role::User, vec![result("a", &long), result("b", "short")]),
        text(Role::Assistant, "ok"),
        blocks(Role::User, vec![result("c", &long)]),
        blocks(Role::User, vec![result("d", &long), result("e", &long)]),
    ]
}

#[test]
fn micro_compaction_keeps_the_latest_three_results() {
    let mut msgs = compaction_transcript();
    assert_eq!(collect_tool_result_positions(&msgs), vec![(0, 0), (0, 1), (2, 0), (3, 0), (3, 1)]);
    micro_compact(&mut msgs);
    let note = "[Earlier tool result compacted. Re-run the tool if you need full detail.]";
    assert_eq!(result_text(&msgs[0], 0), note);
    assert_eq!(result_text(&msgs[0], 1), "short");
    assert_eq!(result_text(&msgs[2], 0), "x".repeat(200));
    assert_eq!(result_text(&msgs[3], 0), "x".repeat(200));
    assert_eq!(result_text(&msgs[3], 1), "x".repeat(200));
    assert_eq!(msgs.len(), 4);
}

#[test]
fn micro_compaction_twice_is_compaction_once() {
    let mut once = compaction_transcript();
    micro_compact(&mut once);
    let mut twice = once.clone();
    micro_compact(&mut twice);
    let positions = collect_tool_result_positions(&once);
    assert_eq!(positions, collect_tool_result_positions(&twice));
    for (i, j) in positions {
        assert_eq!(result_text(&once[i], j), result_text(&twice[i], j));
    }
    assert_eq!(extract_text(&once[1].content), extract_text(&twice[1].content));
}

fn shape(msgs: &[Message]) -> Vec<String> {
    msgs.iter()
        .map(|m| {
            let body = match &m.content {
                MessageContent::Text { content } => format!("text:{content}"),
                MessageContent::Blocks { content } => content
                    .iter()
                    .map(|b| match b {
                        ContentBlock::Text { text } => format!("t:{text}"),
                        ContentBlock::ToolUse { id, name, .. } => format!("use:{id}:{name}"),
                        ContentBlock::ToolResult { tool_use_id, content } => format!("res:{tool_use_id}:{content}"),
                        _ => "other".to_string(),
                    })
                    .collect::<Vec<_>>()
                    .join("|"),
            };
            format!("{:?}:{body}", m.role == Role::User)
        })
        .collect()
}

#[test]
fn normalizing_twice_is_normalizing_once() {
    let msgs = vec![
        text(Role::User, "hi"),
        text(Role::User, "again"),
        blocks(Role::Assistant, vec![tool_use("t1", "bash", &[("command", "ls")])]),
        text(Role::Assistant, "more"),
        blocks(Role::User, vec![result("t2", "done")]),
    ];
    let once = normalize_messages(&msgs);
    let twice = normalize_messages(&once);
    assert_eq!(shape(&once), shape(&twice));
    assert_eq!(
        shape(&once),
        vec![
            "true:text:hi\nagain".to_string(),
            "false:use:t1:bash|t:more".to_string(),
            "true:res:t2:done|res:t1:(cancelled)".to_string(),
        ]
    );
}

#[test]
fn normalizing_adds_one_cancelled_result_per_open_call() {
    let msgs = vec![
        blocks(Role::Assistant, vec![tool_use("a", "bash", &[]), tool_use("b", "bash", &[]), tool_use("c", "bash", &[])]),
        blocks(Role::User, vec![result("b", "done")]),
    ];
    let out = normalize_messages(&msgs);
    let results: Vec<String> = out
        .iter()
        .flat_map(|m| match &m.content {
            MessageContent::Blocks { content } => content
                .iter()
                .filter_map(|b| match b {
                    ContentBlock::ToolResult { tool_use_id, content } => Some(format!("{tool_use_id}:{content}")),
                    _ => None,
                })
                .collect::<Vec<_>>(),
            _ => Vec::new(),
        })
        .collect();
    assert_eq!(results, vec!["b:done", "a:(cancelled)", "c:(cancelled)"]);
}

#[test]
fn fallback_size_counts_texts_calls_and_results() {
    let msgs = vec![
        text(Role::User, "hello"),
        blocks(Role::Assistant, vec![ContentBlock::Text { text: "abc".to_string() }, tool_use("t1", "bash", &[])]),
        blocks(Role::User, vec![result("t1", "four")]),
    ];
    // 5 + 3 + ("bash" 4 + "{}" 2) + 4
    assert_eq!(fallback_context_size(&msgs), 18);
    assert_eq!(fallback_context_size_checked(&msgs), Some(18));
    assert_eq!(fallback_context_size_checked(&Vec::new()), Some(0));
}
