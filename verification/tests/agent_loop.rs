use agent_harness::agent::{
    after_post_hooks, bash_calls, hooks_by_type, log_preview, post_tool_block_text,
    pre_tool_block_text, sub_agent_banner, sub_agent_system_prompt, tool_error_text,
    tool_results_message, turn_ends, unknown_tool_text, HookChain, HookControl, HookTypes,
    PlanTracker, SubAgentRun, TurnTracker,
};
use agent_harness::message::{ContentBlock, MessageContent, Role, ToolInput};
use agent_harness::recovery::StopReason;

/// A tool call as the hooks see it.
struct ToolUse {
    id: String,
    name: String,
    input: ToolInput,
}

enum Hook {
    PreToolUse(Box<dyn Fn(&mut ToolUse) -> HookControl>),
    PostToolUse(Box<dyn Fn(&ToolUse, &mut String) -> HookControl>),
    SessionStart,
}

fn kind(h: &Hook) -> HookTypes {
    match h {
        Hook::PreToolUse(_) => HookTypes::PreToolUse,
        Hook::PostToolUse(_) => HookTypes::PostToolUse,
        Hook::SessionStart => HookTypes::SessionStart,
    }
}

/// One round of tool calls against a dummy tool that answers "tool output",
/// with the hooks driven by `HookChain`; gives the results message and the
/// inputs the tool was called with.
fn execute_tool_call(hooks: &[Hook], calls: Vec<(&str, &str, ToolInput)>) -> (Vec<(String, String)>, Vec<ToolInput>) {
    let kinds: Vec<HookTypes> = hooks.iter().map(kind).collect();
    let mut results = Vec::new();
    let mut seen = Vec::new();
    for (id, name, input) in calls {
        let mut tool_use = ToolUse { id: id.to_string(), name: name.to_string(), input };
        let mut chain = HookChain::new(hooks_by_type(&kinds, HookTypes::PreToolUse));
        while let Some(i) = chain.next_hook() {
            if let Hook::PreToolUse(h) = &hooks[i] {
                chain.record(h(&mut tool_use));
            }
        }
        if let Some(reason) = chain.blocked {
            results.push((tool_use.id.clone(), pre_tool_block_text(&reason)));
            continue;
        }
        let mut output = if tool_use.name == "dummy" {
            seen.push(tool_use.input.clone());
            "tool output".to_string()
        } else {
            unknown_tool_text(&tool_use.name)
        };
        let mut chain = HookChain::new(hooks_by_type(&kinds, HookTypes::PostToolUse));
        while let Some(i) = chain.next_hook() {
            if let Hook::PostToolUse(h) = &hooks[i] {
                chain.record(h(&tool_use, &mut output));
            }
        }
        results.push((tool_use.id.clone(), after_post_hooks(output, chain.blocked)));
    }
    let message = tool_results_message(results);
    assert_eq!(message.role, Role::User);
    let pairs = match message.content {
        MessageContent::Blocks { content } => content
            .into_iter()
            .map(|b| match b {
                ContentBlock::ToolResult { tool_use_id, content } => (tool_use_id, content),
                _ => panic!("expected a tool result"),
            })
            .collect(),
        _ => panic!("expected blocks"),
    };
    (pairs, seen)
}

fn empty_input() -> ToolInput {
    ToolInput::new("{}".to_string(), Vec::new(), Vec::new())
}

#[test]
fn before_tool_block_skips_execution() {
    let hooks = vec![Hook::PreToolUse(Box::new(|_| HookControl::Block("blocked".to_string())))];
    let (results, seen) = execute_tool_call(&hooks, vec![("1", "dummy", empty_input())]);
    assert_eq!(results, vec![("1".to_string(), "Tool blocked by PreToolUse hook: blocked".to_string())]);
    assert!(seen.is_empty());
}

#[test]
fn post_tool_can_mutate_result() {
    let hooks = vec![Hook::PostToolUse(Box::new(|_, result: &mut String| {
        result.push_str(" + modified");
        HookControl::Continue
    }))];
    let (results, _) = execute_tool_call(&hooks, vec![("1", "dummy", empty_input())]);
    assert_eq!(results, vec![("1".to_string(), "tool output + modified".to_string())]);
}

#[test]
fn post_tool_block_replaces_result() {
    let hooks = vec![Hook::PostToolUse(Box::new(|_, _| HookControl::Block("filtered".to_string())))];
    let (results, _) = execute_tool_call(&hooks, vec![("1", "dummy", empty_input())]);
    assert_eq!(results, vec![("1".to_string(), "Tool blocked by PostToolUse hook: filtered".to_string())]);
    assert_eq!(post_tool_block_text("x"), "Tool blocked by PostToolUse hook: x");
}

#[test]
fn pre_tool_can_mutate_input() {
    let hooks = vec![Hook::PreToolUse(Box::new(|tool_use: &mut ToolUse| {
        tool_use.input = ToolInput::new(
            "{\"rewritten\":true}".to_string(),
            Vec::new(),
            vec![("rewritten".to_string(), true)],
        );
        HookControl::Continue
    }))];
    let (results, seen) = execute_tool_call(&hooks, vec![("1", "dummy", empty_input())]);
    assert_eq!(results, vec![("1".to_string(), "tool output".to_string())]);
    assert_eq!(seen.len(), 1);
    assert_eq!(seen[0].get_bool("rewritten"), Some(true));
    assert_eq!(seen[0].text, "{\"rewritten\":true}");
}

#[test]
fn block_short_circuits_remaining_hooks() {
    let counter = std::rc::Rc::new(std::cell::Cell::new(0));
    let c = counter.clone();
    let hooks = vec![
        Hook::PreToolUse(Box::new(|_| HookControl::Block("blocked".to_string()))),
        Hook::SessionStart,
        Hook::PreToolUse(Box::new(move |_| {
            c.set(c.get() + 1);
            HookControl::Continue
        })),
    ];
    let (results, _) = execute_tool_call(&hooks, vec![("1", "dummy", empty_input())]);
    assert_eq!(results[0].1, "Tool blocked by PreToolUse hook: blocked");
    assert_eq!(counter.get(), 0);
    let kinds: Vec<HookTypes> = hooks.iter().map(kind).collect();
    assert_eq!(hooks_by_type(&kinds, HookTypes::PreToolUse), vec![0, 2]);
}

#[test]
fn turns_end_unless_tools_were_called() {
    assert!(turn_ends(Some(StopReason::EndTurn)));
    assert!(turn_ends(Some(StopReason::MaxTokens)));
    assert!(!turn_ends(Some(StopReason::ToolUse)));
    assert!(!turn_ends(None));
}

#[test]
fn tool_call_answers() {
    assert_eq!(unknown_tool_text("x"), "Unknown tool: x");
    assert_eq!(tool_error_text("bash", "boom"), "Error invoking tool bash: boom");
    assert_eq!(log_preview(&"a".repeat(300)).len(), 200);
    let m = tool_results_message(vec![("1".to_string(), "out".to_string())]);
    assert_eq!(m.role, Role::User);
    match &m.content {
        MessageContent::Blocks { content } => match &content[0] {
            ContentBlock::ToolResult { tool_use_id, content } => {
                assert_eq!(tool_use_id, "1");
                assert_eq!(content, "out");
            }
            _ => panic!("expected a tool result"),
        },
        _ => panic!("expected blocks"),
    }
}

#[test]
fn plan_reminder_after_three_quiet_rounds() {
    let mut t = PlanTracker::new();
    assert!(t.end_round(false).is_none());
    assert!(t.end_round(false).is_none());
    assert_eq!(t.end_round(false).unwrap(), "<reminder>Refresh your current plan before continuing.</reminder>");
    assert!(t.end_round(false).is_some());
    assert!(t.end_round(true).is_none());
    assert_eq!(t.todo_rounds_since_update, 0);
    assert!(t.reminder().is_none());
}

#[test]
fn sub_agent_keeps_last_text() {
    let mut run = SubAgentRun::new();
    assert!(run.may_continue());
    run.observe("first".to_string());
    run.observe(String::new());
    assert_eq!(run.rounds, 2);
    assert_eq!(run.summary(), "first");
    assert_eq!(SubAgentRun::new().summary(), "(no summary)");
    assert_eq!(
        sub_agent_system_prompt("/w"),
        "You are a coding subagent at /w. Complete the given task, then summarize your findings."
    );
    assert_eq!(sub_agent_banner(None, "go"), "> task - (): go");
    assert_eq!(sub_agent_banner(Some("d"), "go"), "> task - (d): go");
}

#[test]
fn sub_agent_stops_after_thirty_rounds() {
    let mut run = SubAgentRun::new();
    for _ in 0..30 {
        assert!(run.may_continue());
        run.observe("x".to_string());
    }
    assert!(!run.may_continue());
}

#[test]
fn first_loop_runs_only_bash_with_a_command() {
    let bash = ToolInput::new("{}".to_string(), vec![("command".to_string(), "ls".to_string())], Vec::new());
    let other = ToolInput::new("{}".to_string(), vec![("command".to_string(), "ls".to_string())], Vec::new());
    let empty = ToolInput::new("{}".to_string(), Vec::new(), Vec::new());
    let blocks = vec![
        ContentBlock::Text { text: "hi".to_string() },
        ContentBlock::ToolUse { id: "1".to_string(), name: "bash".to_string(), input: bash },
        ContentBlock::ToolUse { id: "2".to_string(), name: "read_file".to_string(), input: other },
        ContentBlock::ToolUse { id: "3".to_string(), name: "bash".to_string(), input: empty },
    ];
    assert_eq!(bash_calls(&blocks), vec![("1".to_string(), "ls".to_string())]);
    let mut t = TurnTracker::new();
    t.tool_round();
    assert_eq!(t.turn_count, 2);
    assert_eq!(t.transition_reason.as_deref(), Some("tool_result"));
    t.stop();
    assert!(t.transition_reason.is_none());
}
