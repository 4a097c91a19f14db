//! The decisions of the agent loop: when a turn ends, what a tool call
//! answers when it cannot run, the hooks around a tool call, the plan
//! reminder, and the sub-agent's bounded run.
use vstd::prelude::*;

use crate::message::{
    lookup, BlockView, ContentBlock, ContentView, Message, MessageContent, MessageView, Role,
};
use crate::recovery::StopReason;
use crate::text::{char_count, concat, owned, str_eq, take_chars, take_chars_spec};

verus! {

/// The loop stops once the model stopped for another reason than a tool
/// call; with no stop reason it runs the tool calls.
pub open spec fn turn_ends_spec(stop: Option<StopReason>) -> bool {
    match stop {
        Some(s) => s != StopReason::ToolUse,
        None => false,
    }
}

/// Whether the loop stops after a response that stopped for `stop`.
pub fn turn_ends(stop: Option<StopReason>) -> (r: bool)
    ensures
        r == turn_ends_spec(stop),
{
    match stop {
        Some(StopReason::ToolUse) => false,
        Some(_) => true,
        None => false,
    }
}

/// What a call of a tool the harness does not have answers.
pub fn unknown_tool_text(name: &str) -> (r: String)
    ensures
        r@ == "Unknown tool: "@ + name@,
{
    concat(owned("Unknown tool: "), name)
}

/// What a tool call answers when the tool fails with `error`.
pub fn tool_error_text(name: &str, error: &str) -> (r: String)
    ensures
        r@ == "Error invoking tool "@ + name@ + ": "@ + error@,
{
    concat(concat(concat(owned("Error invoking tool "), name), ": "), error)
}

/// The part of a tool's output that is logged: its first 200 characters.
pub fn log_preview(output: &str) -> (r: String)
    ensures
        r@ == take_chars_spec(output@, 200),
{
    take_chars(output, 200)
}

/// The message that answers a round of tool calls: one result block per
/// call, `(tool use id, output)`, in order.
pub fn tool_results_message(results: Vec<(String, String)>) -> (r: Message)
    ensures
        r@ == (MessageView {
            role: Role::User,
            content: ContentView::Blocks {
                content: results@.map_values(|p: (String, String)| BlockView::ToolResult { tool_use_id: p.0@, content: p.1@ }),
            },
        }),
{
    let ghost tv = results@;
    let mut blocks: Vec<ContentBlock> = Vec::new();
    let mut i: usize = 0;
    while i < results.len()
        invariant
            i <= results.len(),
            tv == results@,
            blocks@.map_values(|b: ContentBlock| b@) == tv.take(i as int).map_values(|p: (String, String)| BlockView::ToolResult { tool_use_id: p.0@, content: p.1@ }),
        decreases results.len() - i,
    {
        let ghost before = blocks@.map_values(|b: ContentBlock| b@);
        blocks.push(ContentBlock::ToolResult { tool_use_id: results[i].0.clone(), content: results[i].1.clone() });
        assert(blocks@.map_values(|b: ContentBlock| b@) =~= before.push(BlockView::ToolResult { tool_use_id: tv[i as int].0@, content: tv[i as int].1@ }));
        assert(tv.take(i + 1).map_values(|p: (String, String)| BlockView::ToolResult { tool_use_id: p.0@, content: p.1@ }) =~= tv.take(i as int).map_values(|p: (String, String)| BlockView::ToolResult { tool_use_id: p.0@, content: p.1@ }).push(BlockView::ToolResult { tool_use_id: tv[i as int].0@, content: tv[i as int].1@ }));
        i = i + 1;
    }
    assert(tv.take(i as int) =~= tv);
    Message { role: Role::User, content: MessageContent::Blocks { content: blocks } }
}

// ---------------------------------------------------------------------------
// Hooks
// ---------------------------------------------------------------------------

/// When a hook runs.
#[derive(Clone, Copy, Debug, PartialEq, Eq, Structural)]
pub enum HookTypes {
    SessionStart,
    PreToolUse,
    PostToolUse,
}

/// What a hook answers: go on, or block with a reason.
pub enum HookControl {
    Continue,
    Block(String),
}

/// The positions of the hooks of kind `t` among `kinds`, in order.
pub open spec fn positions_of(kinds: Seq<HookTypes>, t: HookTypes) -> Seq<int>
    decreases kinds.len(),
{
    if kinds.len() == 0 {
        Seq::empty()
    } else if kinds.last() == t {
        positions_of(kinds.drop_last(), t).push(kinds.len() - 1)
    } else {
        positions_of(kinds.drop_last(), t)
    }
}

/// The positions of the hooks of kind `t` among `kinds`, in order.
pub fn hooks_by_type(kinds: &Vec<HookTypes>, t: HookTypes) -> (r: Vec<usize>)
    ensures
        r@.map_values(|i: usize| i as int) == positions_of(kinds@, t),
{
    let mut r: Vec<usize> = Vec::new();
    let mut i: usize = 0;
    while i < kinds.len()
        invariant
            i <= kinds.len(),
            r@.map_values(|k: usize| k as int) == positions_of(kinds@.take(i as int), t),
        decreases kinds.len() - i,
    {
        assert(kinds@.take(i + 1).drop_last() =~= kinds@.take(i as int));
        assert(kinds@.take(i + 1).last() == kinds@[i as int]);
        if kinds[i] == t {
            let ghost before = r@.map_values(|k: usize| k as int);
            r.push(i);
            assert(r@.map_values(|k: usize| k as int) =~= before.push(i as int));
        }
        i = i + 1;
    }
    assert(kinds@.take(i as int) =~= kinds@);
    r
}

/// A run of the hooks of one kind: it offers them one at a time, in order,
/// and stops at the first that blocks.
pub struct HookChain {
    pub hooks: Vec<usize>,
    pub next: usize,
    pub blocked: Option<String>,
}

impl HookChain {
    /// A run over the hooks at `hooks`.
    pub fn new(hooks: Vec<usize>) -> (r: HookChain)
        ensures
            r.hooks@ == hooks@,
            r.next == 0,
            r.blocked is None,
    {
        HookChain { hooks, next: 0, blocked: None }
    }

    /// The hook to call next, if the run goes on: none once a hook blocked
    /// or all were called.
    pub fn next_hook(&self) -> (r: Option<usize>)
        ensures
            match r {
                Some(h) => self.blocked is None && self.next < self.hooks@.len() && h == self.hooks@[self.next as int],
                None => self.blocked is Some || self.next >= self.hooks@.len(),
            },
    {
        if self.blocked.is_some() || self.next >= self.hooks.len() {
            None
        } else {
            Some(self.hooks[self.next])
        }
    }

    /// Takes the answer of the hook just called.
    pub fn record(&mut self, control: HookControl)
        requires
            old(self).blocked is None,
            old(self).next < old(self).hooks@.len(),
        ensures
            final(self).hooks@ == old(self).hooks@,
            final(self).next == old(self).next + 1,
            match control {
                HookControl::Continue => final(self).blocked is None,
                HookControl::Block(reason) => final(self).blocked matches Some(b) && b@ == reason@,
            },
    {
        let n = self.hooks.len();
        assert(self.next < n);
        self.next = self.next + 1;
        match control {
            HookControl::Continue => {},
            HookControl::Block(reason) => {
                self.blocked = Some(reason);
            },
        }
    }
}

/// What a tool call answers when a hook before it blocks.
pub fn pre_tool_block_text(reason: &str) -> (r: String)
    ensures
        r@ == "Tool blocked by PreToolUse hook: "@ + reason@,
{
    concat(owned("Tool blocked by PreToolUse hook: "), reason)
}

/// What a tool call answers when a hook after it blocks.
pub fn post_tool_block_text(reason: &str) -> (r: String)
    ensures
        r@ == "Tool blocked by PostToolUse hook: "@ + reason@,
{
    concat(owned("Tool blocked by PostToolUse hook: "), reason)
}

/// The result of a tool call once the hooks after it ran: a block replaces
/// it.
pub fn after_post_hooks(result: String, blocked: Option<String>) -> (r: String)
    ensures
        r@ == match blocked {
            Some(b) => "Tool blocked by PostToolUse hook: "@ + b@,
            None => result@,
        },
{
    match blocked {
        Some(b) => post_tool_block_text(b.as_str()),
        None => result,
    }
}

// ---------------------------------------------------------------------------
// The plan reminder
// ---------------------------------------------------------------------------

/// Rounds without a plan update after which the model is reminded.
pub const PLAN_REMINDER_INTERVAL: usize = 3;

/// Counts the rounds of tool calls since the plan was last updated.
pub struct PlanTracker {
    pub todo_rounds_since_update: usize,
}

impl PlanTracker {
    /// No round yet.
    pub fn new() -> (r: PlanTracker)
        ensures
            r.todo_rounds_since_update == 0,
    {
        PlanTracker { todo_rounds_since_update: 0 }
    }

    /// The reminder, once enough rounds went by without an update.
    pub fn reminder(&self) -> (r: Option<String>)
        ensures
            match r {
                Some(s) => self.todo_rounds_since_update >= PLAN_REMINDER_INTERVAL && s@
                    == "<reminder>Refresh your current plan before continuing.</reminder>"@,
                None => self.todo_rounds_since_update < PLAN_REMINDER_INTERVAL,
            },
    {
        if self.todo_rounds_since_update >= PLAN_REMINDER_INTERVAL {
            Some(owned("<reminder>Refresh your current plan before continuing.</reminder>"))
        } else {
            None
        }
    }

    /// One more round went by without an update.
    pub fn note_round_without_update(&mut self)
        requires
            old(self).todo_rounds_since_update < usize::MAX,
        ensures
            final(self).todo_rounds_since_update == old(self).todo_rounds_since_update + 1,
    {
        self.todo_rounds_since_update = self.todo_rounds_since_update + 1;
    }

    /// The end of a round of tool calls: an update of the plan resets the
    /// count; otherwise the count grows and the reminder, if due, is given
    /// (to go first in the results).
    pub fn end_round(&mut self, used_todo: bool) -> (r: Option<String>)
        requires
            old(self).todo_rounds_since_update < usize::MAX,
        ensures
            used_todo ==> final(self).todo_rounds_since_update == 0 && r is None,
            !used_todo ==> final(self).todo_rounds_since_update == old(self).todo_rounds_since_update + 1
                && (r is Some <==> final(self).todo_rounds_since_update >= PLAN_REMINDER_INTERVAL),
            r matches Some(s) ==> s@ == "<reminder>Refresh your current plan before continuing.</reminder>"@,
    {
        if used_todo {
            self.todo_rounds_since_update = 0;
            None
        } else {
            self.note_round_without_update();
            self.reminder()
        }
    }
}

// ---------------------------------------------------------------------------
// The sub-agent
// ---------------------------------------------------------------------------

/// Rounds a sub-agent may take.
pub const SUB_AGENT_MAX_ROUNDS: usize = 30;

/// A sub-agent's run: the rounds taken and the last non-empty text the model
/// wrote, which becomes its summary.
pub struct SubAgentRun {
    pub rounds: usize,
    pub last_summary: Option<String>,
}

impl SubAgentRun {
    /// A run that has not started.
    pub fn new() -> (r: SubAgentRun)
        ensures
            r.rounds == 0,
            r.last_summary is None,
    {
        SubAgentRun { rounds: 0, last_summary: None }
    }

    /// Whether another round may start.
    pub fn may_continue(&self) -> (r: bool)
        ensures
            r == (self.rounds < SUB_AGENT_MAX_ROUNDS),
    {
        self.rounds < SUB_AGENT_MAX_ROUNDS
    }

    /// Takes the text of a response: it becomes the summary unless empty.
    pub fn observe(&mut self, text: String)
        requires
            old(self).rounds < SUB_AGENT_MAX_ROUNDS,
        ensures
            final(self).rounds == old(self).rounds + 1,
            text@.len() > 0 ==> (final(self).last_summary matches Some(s) && s@ == text@),
            text@.len() == 0 ==> final(self).last_summary == old(self).last_summary,
    {
        self.rounds = self.rounds + 1;
        if char_count(text.as_str()) > 0 {
            self.last_summary = Some(text);
        }
    }

    /// The answer of the sub-agent: its last summary, or `(no summary)`.
    pub fn summary(self) -> (r: String)
        ensures
            r@ == match self.last_summary {
                Some(s) => s@,
                None => "(no summary)"@,
            },
    {
        match self.last_summary {
            Some(s) => s,
            None => owned("(no summary)"),
        }
    }
}

/// The system prompt of a sub-agent working in `workdir`.
pub fn sub_agent_system_prompt(workdir: &str) -> (r: String)
    ensures
        r@ == "You are a coding subagent at "@ + workdir@
            + ". Complete the given task, then summarize your findings."@,
{
    concat(concat(owned("You are a coding subagent at "), workdir), ". Complete the given task, then summarize your findings.")
}

/// The line that announces a sub-agent's task.
pub fn sub_agent_banner(description: Option<&str>, prompt: &str) -> (r: String)
    ensures
        r@ == "> task - ("@ + (match description {
            Some(d) => d@,
            None => Seq::<char>::empty(),
        }) + "): "@ + prompt@,
{
    let head = match description {
        Some(d) => concat(owned("> task - ("), d),
        None => owned("> task - ("),
    };
    concat(concat(head, "): "), prompt)
}


// ---------------------------------------------------------------------------
// The first loop: bash only
// ---------------------------------------------------------------------------

/// The bash calls of a response, `(tool use id, command)`, in order: the
/// tool uses named `bash` whose input has a `command` string.
pub open spec fn bash_calls_spec(blocks: Seq<BlockView>) -> Seq<(Seq<char>, Seq<char>)>
    decreases blocks.len(),
{
    if blocks.len() == 0 {
        Seq::empty()
    } else {
        let rest = bash_calls_spec(blocks.drop_last());
        match blocks.last() {
            BlockView::ToolUse { id, name, input } => if name == "bash"@ && lookup(input.strings, "command"@) is Some {
                rest.push((id, lookup(input.strings, "command"@)->0))
            } else {
                rest
            },
            _ => rest,
        }
    }
}

/// The bash calls of a response, in order.
pub fn bash_calls(blocks: &Vec<ContentBlock>) -> (r: Vec<(String, String)>)
    ensures
        r@.map_values(|p: (String, String)| (p.0@, p.1@)) == bash_calls_spec(blocks@.map_values(|b: ContentBlock| b@)),
{
    let ghost bv = blocks@.map_values(|b: ContentBlock| b@);
    let mut r: Vec<(String, String)> = Vec::new();
    let mut i: usize = 0;
    while i < blocks.len()
        invariant
            i <= blocks.len(),
            bv == blocks@.map_values(|b: ContentBlock| b@),
            r@.map_values(|p: (String, String)| (p.0@, p.1@)) == bash_calls_spec(bv.take(i as int)),
        decreases blocks.len() - i,
    {
        assert(bv.take(i + 1).drop_last() =~= bv.take(i as int));
        assert(bv.take(i + 1).last() == bv[i as int]);
        match &blocks[i] {
            ContentBlock::ToolUse { id, name, input } => {
                if str_eq(name.as_str(), "bash") {
                    match input.get_str("command") {
                        Some(c) => {
                            let ghost before = r@.map_values(|p: (String, String)| (p.0@, p.1@));
                            r.push((id.clone(), c));
                            assert(r@.map_values(|p: (String, String)| (p.0@, p.1@)) =~= before.push((id@, lookup(input@.strings, "command"@)->0)));
                        },
                        None => {},
                    }
                }
            },
            _ => {},
        }
        i = i + 1;
    }
    assert(bv.take(i as int) =~= bv);
    r
}

/// The first loop's turn count and why it goes on.
pub struct TurnTracker {
    pub turn_count: usize,
    pub transition_reason: Option<String>,
}

impl TurnTracker {
    /// The first turn, with no reason yet.
    pub fn new() -> (r: TurnTracker)
        ensures
            r.turn_count == 1,
            r.transition_reason is None,
    {
        TurnTracker { turn_count: 1, transition_reason: None }
    }

    /// The loop stops: no reason to go on.
    pub fn stop(&mut self)
        ensures
            final(self).turn_count == old(self).turn_count,
            final(self).transition_reason is None,
    {
        self.transition_reason = None;
    }

    /// A round of tool results was added: one more turn, because of them.
    pub fn tool_round(&mut self)
        requires
            old(self).turn_count < usize::MAX,
        ensures
            final(self).turn_count == old(self).turn_count + 1,
            final(self).transition_reason matches Some(t) && t@ == "tool_result"@,
    {
        self.turn_count = self.turn_count + 1;
        self.transition_reason = Some(owned("tool_result"));
    }
}

} // verus!
