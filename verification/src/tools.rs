//! The tools the model can call: what each checks before it acts, and what it
//! answers. Running processes and touching files is left to the caller.
use vstd::prelude::*;

use crate::background::finished_output;
use crate::message::{lookup, lookup_flag, ToolInput};
use crate::team::{message_type_name, MessageType};
use crate::skill::{load_full_text_spec, SkillRegistry};
use crate::text::{
    char_count, chars_of, concat, contains, contains_spec, decimal, owned, starts_with,
    starts_with_spec, str_eq, trim, u64_to_decimal,
};

verus! {

// ---------------------------------------------------------------------------
// Inputs
// ---------------------------------------------------------------------------

/// The string field `key` of a tool input, or the error that names what is
/// missing.
pub fn required_str(input: &ToolInput, key: &str, error: &str) -> (r: Result<String, String>)
    ensures
        match lookup(input@.strings, key@) {
            Some(v) => r matches Ok(s) && s@ == v,
            None => r matches Err(e) && e@ == error@,
        },
{
    match input.get_str(key) {
        Some(v) => Ok(v),
        None => Err(owned(error)),
    }
}

// ---------------------------------------------------------------------------
// bash
// ---------------------------------------------------------------------------

/// The commands `bash` refuses: those that contain one of these.
pub open spec fn dangerous_spec(command: Seq<char>) -> bool {
    ||| contains_spec(command, "rm -rf /"@)
    ||| contains_spec(command, "sudo"@)
    ||| contains_spec(command, "shutdown"@)
    ||| contains_spec(command, "reboot"@)
    ||| contains_spec(command, "> /dev/"@)
}

/// The `bash` tool: runs a shell command in the workspace.
pub struct BashTool;

impl BashTool {
    /// The tool's name.
    pub fn name(&self) -> (r: String)
        ensures
            r@ == "bash"@,
    {
        owned("bash")
    }

    /// Whether `command` is refused.
    pub fn is_dangerous(command: &str) -> (r: bool)
        ensures
            r == dangerous_spec(command@),
    {
        contains(command, "rm -rf /") || contains(command, "sudo") || contains(command, "shutdown")
            || contains(command, "reboot") || contains(command, "> /dev/")
    }

    /// The command to run, or the error: the input has no command, or the
    /// command is refused.
    pub fn command_to_run(&self, input: &ToolInput) -> (r: Result<String, String>)
        ensures
            match lookup(input@.strings, "command"@) {
                None => r matches Err(e) && e@ == "Invalid command"@,
                Some(c) => if dangerous_spec(c) {
                    r matches Err(e) && e@ == "Error: Dangerous command blocked"@
                } else {
                    r matches Ok(s) && s@ == c
                },
            },
    {
        let command = required_str(input, "command", "Invalid command")?;
        if BashTool::is_dangerous(command.as_str()) {
            return Err(owned("Error: Dangerous command blocked"));
        }
        Ok(command)
    }

    /// What a command that finished answers: its output trimmed, `(no
    /// output)` when nothing is left, cut to fifty thousand characters.
    pub fn finished(combined: &str) -> (r: String)
        ensures
            r@ == finished_output(combined@),
    {
        crate::background::CommandOutcome::finished(combined).output
    }

    /// What a command that ran out of time answers.
    pub fn timed_out() -> (r: String)
        ensures
            r@ == "Error: Timeout (120s)"@,
    {
        owned("Error: Timeout (120s)")
    }
}

/// What `run_bash` answers before it starts a process: the answer for
/// a refused command, or nothing.
pub fn run_bash_refusal(command: &str) -> (r: Option<String>)
    ensures
        dangerous_spec(command@) ==> (r matches Some(s) && s@ == "Error: Dangerous command blocked"@),
        !dangerous_spec(command@) ==> r is None,
{
    if BashTool::is_dangerous(command) {
        Some(owned("Error: Dangerous command blocked"))
    } else {
        None
    }
}

// ---------------------------------------------------------------------------
// Paths
// ---------------------------------------------------------------------------

/// The canonical path `full` lies in the canonical directory `base`
/// (`Path::starts_with` on paths without `.`, `..` or doubled separators).
pub open spec fn path_within_spec(base: Seq<char>, full: Seq<char>) -> bool {
    if base.len() > 0 && base.last() == '/' {
        starts_with_spec(full, base)
    } else {
        full == base || starts_with_spec(full, base + "/"@)
    }
}

/// Whether the canonical path `full` lies in the canonical directory `base`.
pub fn path_within(base: &str, full: &str) -> (r: bool)
    ensures
        r == path_within_spec(base@, full@),
{
    if crate::text::ends_with_slash(base) {
        starts_with(full, base)
    } else {
        str_eq(full, base) || starts_with(full, concat(owned(base), "/").as_str())
    }
}

/// The workspace path check: the canonical `full` is accepted where it lies
/// in the workspace `cwd`.
pub fn check_in_workspace(cwd: &str, full: &str) -> (r: Result<(), String>)
    ensures
        r is Ok <==> path_within_spec(cwd@, full@),
        r matches Err(e) ==> e@ == "Path escapes workspace"@,
{
    if path_within(cwd, full) {
        Ok(())
    } else {
        Err(owned("Path escapes workspace"))
    }
}

// ---------------------------------------------------------------------------
// write_file
// ---------------------------------------------------------------------------

/// The number of bytes of `c` in UTF-8.
pub open spec fn utf8_width(c: char) -> nat {
    if (c as u32) < 0x80 {
        1
    } else if (c as u32) < 0x800 {
        2
    } else if (c as u32) < 0x10000 {
        3
    } else {
        4
    }
}

/// The number of bytes of `s` in UTF-8 (`str::len`).
pub open spec fn utf8_len(s: Seq<char>) -> nat
    decreases s.len(),
{
    if s.len() == 0 {
        0
    } else {
        utf8_len(s.drop_last()) + utf8_width(s.last())
    }
}

/// The number of bytes of `s` in UTF-8.
pub fn byte_len(s: &str) -> (r: u64)
    requires
        utf8_len(s@) <= u64::MAX,
    ensures
        r == utf8_len(s@),
{
    let v = chars_of(s);
    let mut n: u64 = 0;
    let mut i: usize = 0;
    while i < v.len()
        invariant
            i <= v.len(),
            v@ == s@,
            n == utf8_len(v@.take(i as int)),
            utf8_len(s@) <= u64::MAX,
        decreases v.len() - i,
    {
        assert(v@.take(i + 1).drop_last() =~= v@.take(i as int));
        assert(v@.take(i + 1).last() == v@[i as int]);
        proof {
            lemma_utf8_len_prefix(v@, i + 1);
        }
        let c = v[i] as u32;
        let w: u64 = if c < 0x80 {
            1
        } else if c < 0x800 {
            2
        } else if c < 0x10000 {
            3
        } else {
            4
        };
        n = n + w;
        i = i + 1;
    }
    assert(v@.take(i as int) =~= v@);
    n
}

proof fn lemma_utf8_len_prefix(s: Seq<char>, k: int)
    requires
        0 <= k <= s.len(),
    ensures
        utf8_len(s.take(k)) <= utf8_len(s),
    decreases s.len() - k,
{
    if k < s.len() {
        lemma_utf8_len_prefix(s, k + 1);
        assert(s.take(k + 1).drop_last() =~= s.take(k));
    } else {
        assert(s.take(k) =~= s);
    }
}

/// The `write_file` tool: writes a file in the workspace.
pub struct WriteFileTool;

impl WriteFileTool {
    /// The tool's name.
    pub fn name(&self) -> (r: String)
        ensures
            r@ == "write_file"@,
    {
        owned("write_file")
    }

    /// The path and the content to write, or the error that names what the
    /// input lacks.
    pub fn arguments(&self, input: &ToolInput) -> (r: Result<(String, String), String>)
        ensures
            match (lookup(input@.strings, "path"@), lookup(input@.strings, "content"@)) {
                (None, _) => r matches Err(e) && e@ == "Invalid path"@,
                (Some(_), None) => r matches Err(e) && e@ == "Invalid content"@,
                (Some(p), Some(c)) => r matches Ok(pc) && pc.0@ == p && pc.1@ == c,
            },
    {
        let path = required_str(input, "path", "Invalid path")?;
        let content = required_str(input, "content", "Invalid content")?;
        Ok((path, content))
    }

    /// The answer once `content` was written to `path`.
    pub fn written(content: &str, path: &str) -> (r: String)
        requires
            utf8_len(content@) <= u64::MAX,
        ensures
            r@ == "Wrote "@ + decimal(utf8_len(content@)) + " bytes to "@ + path@,
    {
        let n = byte_len(content);
        concat(concat(concat(owned("Wrote "), u64_to_decimal(n).as_str()), " bytes to "), path)
    }
}

// ---------------------------------------------------------------------------
// load_skill, compact, task
// ---------------------------------------------------------------------------

/// The `load_skill` tool: gives the model the full text of a skill.
pub struct LoadSkillTool {
    pub registry: SkillRegistry,
}

impl LoadSkillTool {
    /// The tool over `registry`.
    pub fn new(registry: SkillRegistry) -> (r: LoadSkillTool)
        ensures
            r.registry@ == registry@,
    {
        LoadSkillTool { registry }
    }

    /// The tool's name.
    pub fn name(&self) -> (r: String)
        ensures
            r@ == "load_skill"@,
    {
        owned("load_skill")
    }

    /// The full text of the skill the input names, or the error.
    pub fn invoke(&self, input: &ToolInput) -> (r: Result<String, String>)
        ensures
            match lookup(input@.strings, "name"@) {
                None => r matches Err(e) && e@ == "Invalid name"@,
                Some(n) => r matches Ok(s) && s@ == load_full_text_spec(self.registry@, n),
            },
    {
        let name = required_str(input, "name", "Invalid name")?;
        Ok(self.registry.load_full_text(name.as_str()))
    }
}

/// The `compact` tool: asks the loop to compact the conversation.
pub struct CompactTool;

impl CompactTool {
    /// The tool's name.
    pub fn name(&self) -> (r: String)
        ensures
            r@ == "compact"@,
    {
        owned("compact")
    }

    /// What the tool answers; the loop then compacts.
    pub fn invoke(&self) -> (r: String)
        ensures
            r@ == "Compacting conversation..."@,
    {
        owned("Compacting conversation...")
    }

    /// The focus the model asked the summary to keep, if any.
    pub fn focus(&self, input: &ToolInput) -> (r: Option<String>)
        ensures
            match lookup(input@.strings, "focus"@) {
                Some(f) => r matches Some(s) && s@ == f,
                None => r is None,
            },
    {
        input.get_str("focus")
    }
}

/// The `task` tool: hands a task to a sub-agent with a fresh context.
pub struct SubAgentTool;

impl SubAgentTool {
    /// The tool's name.
    pub fn name(&self) -> (r: String)
        ensures
            r@ == "task"@,
    {
        owned("task")
    }

    /// The task's prompt and its short description, or the error.
    pub fn arguments(&self, input: &ToolInput) -> (r: Result<(String, Option<String>), String>)
        ensures
            match lookup(input@.strings, "prompt"@) {
                None => r matches Err(e) && e@ == "Invalid prompt"@,
                Some(p) => r matches Ok(a) && a.0@ == p && match lookup(input@.strings, "description"@) {
                    Some(d) => a.1 matches Some(x) && x@ == d,
                    None => a.1 is None,
                },
            },
    {
        let prompt = required_str(input, "prompt", "Invalid prompt")?;
        let description = input.get_str("description");
        Ok((prompt, description))
    }
}


// ---------------------------------------------------------------------------
// The inputs of the scheduling, background and team tools
// ---------------------------------------------------------------------------

/// A boolean field, or `default` where the input has none.
pub fn bool_or(input: &ToolInput, key: &str, default: bool) -> (r: bool)
    ensures
        r == match lookup_flag(input@.bools, key@) {
            Some(b) => b,
            None => default,
        },
{
    match input.get_bool(key) {
        Some(b) => b,
        None => default,
    }
}

/// A string field, or the empty string where the input has none.
pub fn str_or_empty(input: &ToolInput, key: &str) -> (r: String)
    ensures
        r@ == match lookup(input@.strings, key@) {
            Some(v) => v,
            None => Seq::<char>::empty(),
        },
{
    match input.get_str(key) {
        Some(v) => v,
        None => String::new(),
    }
}

/// A required boolean field, or the error that names it.
pub fn required_bool(input: &ToolInput, key: &str, error: &str) -> (r: Result<bool, String>)
    ensures
        match lookup_flag(input@.bools, key@) {
            Some(b) => r == Ok::<bool, String>(b),
            None => r matches Err(e) && e@ == error@,
        },
{
    match input.get_bool(key) {
        Some(b) => Ok(b),
        None => Err(owned(error)),
    }
}

/// The `cron_create` tool: schedules a prompt.
pub struct CronCreateTool;

impl CronCreateTool {
    /// The tool's name.
    pub fn name(&self) -> (r: String)
        ensures
            r@ == "cron_create"@,
    {
        owned("cron_create")
    }

    /// What the tool is asked: the expression, the prompt, whether it recurs
    /// (by default it does) and whether it is durable (by default not).
    pub fn arguments(&self, input: &ToolInput) -> (r: Result<(String, String, bool, bool), String>)
        ensures
            match (lookup(input@.strings, "cron"@), lookup(input@.strings, "prompt"@)) {
                (None, _) => r matches Err(e) && e@ == "Invalid cron"@,
                (Some(_), None) => r matches Err(e) && e@ == "Invalid prompt"@,
                (Some(c), Some(p)) => r matches Ok(a) && a.0@ == c && a.1@ == p
                    && a.2 == (match lookup_flag(input@.bools, "recurring"@) { Some(b) => b, None => true })
                    && a.3 == (match lookup_flag(input@.bools, "durable"@) { Some(b) => b, None => false }),
            },
    {
        let cron = required_str(input, "cron", "Invalid cron")?;
        let prompt = required_str(input, "prompt", "Invalid prompt")?;
        let recurring = bool_or(input, "recurring", true);
        let durable = bool_or(input, "durable", false);
        Ok((cron, prompt, recurring, durable))
    }
}

/// The `cron_delete` tool: removes a scheduled task.
pub struct CronDeleteTool;

impl CronDeleteTool {
    /// The tool's name.
    pub fn name(&self) -> (r: String)
        ensures
            r@ == "cron_delete"@,
    {
        owned("cron_delete")
    }

    /// The id of the task to remove, or the error.
    pub fn arguments(&self, input: &ToolInput) -> (r: Result<String, String>)
        ensures
            match lookup(input@.strings, "id"@) {
                Some(v) => r matches Ok(s) && s@ == v,
                None => r matches Err(e) && e@ == "Invalid id"@,
            },
    {
        required_str(input, "id", "Invalid id")
    }
}

/// The `cron_list` tool: lists the scheduled tasks.
pub struct CronListTool;

impl CronListTool {
    /// The tool's name.
    pub fn name(&self) -> (r: String)
        ensures
            r@ == "cron_list"@,
    {
        owned("cron_list")
    }
}

/// The `background_run` tool: starts a command in the background.
pub struct BackgroundRunTool;

impl BackgroundRunTool {
    /// The tool's name.
    pub fn name(&self) -> (r: String)
        ensures
            r@ == "background_run"@,
    {
        owned("background_run")
    }

    /// The command to start, or the error.
    pub fn arguments(&self, input: &ToolInput) -> (r: Result<String, String>)
        ensures
            match lookup(input@.strings, "command"@) {
                Some(v) => r matches Ok(s) && s@ == v,
                None => r matches Err(e) && e@ == "Invalid command"@,
            },
    {
        required_str(input, "command", "Invalid command")
    }
}

/// The `check_background` tool: shows one background task, or lists them.
pub struct CheckBackgroundTool;

impl CheckBackgroundTool {
    /// The tool's name.
    pub fn name(&self) -> (r: String)
        ensures
            r@ == "check_background"@,
    {
        owned("check_background")
    }

    /// The task asked about, if any.
    pub fn arguments(&self, input: &ToolInput) -> (r: Option<String>)
        ensures
            match lookup(input@.strings, "task_id"@) {
                Some(v) => r matches Some(s) && s@ == v,
                None => r is None,
            },
    {
        input.get_str("task_id")
    }
}

/// The `spawn_teammate` tool: starts a teammate.
pub struct SpawnTeammateTool;

impl SpawnTeammateTool {
    /// The tool's name.
    pub fn name(&self) -> (r: String)
        ensures
            r@ == "spawn_teammate"@,
    {
        owned("spawn_teammate")
    }

    /// The teammate's name, role and first prompt, or the error.
    pub fn arguments(&self, input: &ToolInput) -> (r: Result<(String, String, String), String>)
        ensures
            match (lookup(input@.strings, "name"@), lookup(input@.strings, "role"@), lookup(input@.strings, "prompt"@)) {
                (None, _, _) => r matches Err(e) && e@ == "Invalid name"@,
                (Some(_), None, _) => r matches Err(e) && e@ == "Invalid role"@,
                (Some(_), Some(_), None) => r matches Err(e) && e@ == "Invalid prompt"@,
                (Some(n), Some(ro), Some(p)) => r matches Ok(a) && a.0@ == n && a.1@ == ro && a.2@ == p,
            },
    {
        let name = required_str(input, "name", "Invalid name")?;
        let role = required_str(input, "role", "Invalid role")?;
        let prompt = required_str(input, "prompt", "Invalid prompt")?;
        Ok((name, role, prompt))
    }
}

/// The `list_teammates` tool: lists the team.
pub struct ListTeammatesTool;

impl ListTeammatesTool {
    /// The tool's name.
    pub fn name(&self) -> (r: String)
        ensures
            r@ == "list_teammates"@,
    {
        owned("list_teammates")
    }
}

/// The `broadcast` tool: sends a message to every teammate.
pub struct BroadcastTool;

impl BroadcastTool {
    /// The tool's name.
    pub fn name(&self) -> (r: String)
        ensures
            r@ == "broadcast"@,
    {
        owned("broadcast")
    }

    /// The content to send, or the error.
    pub fn arguments(&self, input: &ToolInput) -> (r: Result<String, String>)
        ensures
            match lookup(input@.strings, "content"@) {
                Some(v) => r matches Ok(s) && s@ == v,
                None => r matches Err(e) && e@ == "Invalid content"@,
            },
    {
        required_str(input, "content", "Invalid content")
    }
}

/// The `send_message` tool: writes to one teammate's inbox.
pub struct SendMessageTool;

impl SendMessageTool {
    /// The tool's name.
    pub fn name(&self) -> (r: String)
        ensures
            r@ == "send_message"@,
    {
        owned("send_message")
    }

    /// The recipient, the content and the type of the message (`message` by
    /// default), or the error.
    pub fn arguments(&self, input: &ToolInput) -> (r: Result<(String, String, MessageType), String>)
        ensures
            match (lookup(input@.strings, "to"@), lookup(input@.strings, "content"@)) {
                (None, _) => r matches Err(e) && e@ == "Invalid to"@,
                (Some(_), None) => r matches Err(e) && e@ == "Invalid content"@,
                (Some(t), Some(c)) => match lookup(input@.strings, "msg_type"@) {
                    None => r matches Ok(a) && a.0@ == t && a.1@ == c && a.2 == MessageType::Message,
                    Some(m) => if exists|k: MessageType| message_type_name(k) == m {
                        r matches Ok(a) && a.0@ == t && a.1@ == c && message_type_name(a.2) == m
                    } else {
                        r matches Err(e) && e@ == "Matching variant not found"@
                    },
                },
            },
    {
        let to = required_str(input, "to", "Invalid to")?;
        let content = required_str(input, "content", "Invalid content")?;
        let message_type = match input.get_str("msg_type") {
            None => MessageType::Message,
            Some(m) => match MessageType::parse(m.as_str()) {
                Some(t) => t,
                None => return Err(owned("Matching variant not found")),
            },
        };
        Ok((to, content, message_type))
    }
}

/// The `read_inbox` tool: reads and drains the caller's inbox.
pub struct ReadInboxTool;

impl ReadInboxTool {
    /// The tool's name.
    pub fn name(&self) -> (r: String)
        ensures
            r@ == "read_inbox"@,
    {
        owned("read_inbox")
    }
}

/// The request, whether it is approved, and the text under `text_key`
/// (empty by default), or the error.
fn request_answer(input: &ToolInput, text_key: &str) -> (r: Result<(String, bool, String), String>)
    ensures
        match (lookup(input@.strings, "request_id"@), lookup_flag(input@.bools, "approve"@)) {
            (None, _) => r matches Err(e) && e@ == "Invalid request_id"@,
            (Some(_), None) => r matches Err(e) && e@ == "Invalid approve"@,
            (Some(id), Some(a)) => r matches Ok(x) && x.0@ == id && x.1 == a && x.2@ == (match lookup(input@.strings, text_key@) {
                Some(t) => t,
                None => Seq::<char>::empty(),
            }),
        },
{
    let request_id = required_str(input, "request_id", "Invalid request_id")?;
    let approve = required_bool(input, "approve", "Invalid approve")?;
    let text = str_or_empty(input, text_key);
    Ok((request_id, approve, text))
}

/// The `shutdown_response` tool of a teammate: answers a shutdown request.
pub struct ShutdownResponseTool;

impl ShutdownResponseTool {
    /// The tool's name.
    pub fn name(&self) -> (r: String)
        ensures
            r@ == "shutdown_response"@,
    {
        owned("shutdown_response")
    }

    /// The request, whether shutting down is approved, and the reason (empty
    /// by default), or the error.
    pub fn arguments(&self, input: &ToolInput) -> (r: Result<(String, bool, String), String>)
        ensures
            match (lookup(input@.strings, "request_id"@), lookup_flag(input@.bools, "approve"@)) {
                (None, _) => r matches Err(e) && e@ == "Invalid request_id"@,
                (Some(_), None) => r matches Err(e) && e@ == "Invalid approve"@,
                (Some(id), Some(a)) => r matches Ok(x) && x.0@ == id && x.1 == a && x.2@ == (match lookup(input@.strings, "reason"@) {
                    Some(t) => t,
                    None => Seq::<char>::empty(),
                }),
            },
    {
        request_answer(input, "reason")
    }
}

/// The lead's `shutdown_response` tool: shows a shutdown request's record.
pub struct ShutdownResponseStatusTool;

impl ShutdownResponseStatusTool {
    /// The tool's name.
    pub fn name(&self) -> (r: String)
        ensures
            r@ == "shutdown_response"@,
    {
        owned("shutdown_response")
    }

    /// The request asked about, or the error.
    pub fn arguments(&self, input: &ToolInput) -> (r: Result<String, String>)
        ensures
            match lookup(input@.strings, "request_id"@) {
                Some(v) => r matches Ok(s) && s@ == v,
                None => r matches Err(e) && e@ == "Invalid request_id"@,
            },
    {
        required_str(input, "request_id", "Invalid request_id")
    }
}

/// A teammate's `plan_approval` tool: submits a plan to the lead.
pub struct PlanApprovalSubmitTool;

impl PlanApprovalSubmitTool {
    /// The tool's name.
    pub fn name(&self) -> (r: String)
        ensures
            r@ == "plan_approval"@,
    {
        owned("plan_approval")
    }

    /// The plan, or the error.
    pub fn arguments(&self, input: &ToolInput) -> (r: Result<String, String>)
        ensures
            match lookup(input@.strings, "plan"@) {
                Some(v) => r matches Ok(s) && s@ == v,
                None => r matches Err(e) && e@ == "Invalid plan"@,
            },
    {
        required_str(input, "plan", "Invalid plan")
    }
}

/// The lead's `plan_approval` tool: approves or rejects a plan.
pub struct PlanApprovalReviewTool;

impl PlanApprovalReviewTool {
    /// The tool's name.
    pub fn name(&self) -> (r: String)
        ensures
            r@ == "plan_approval"@,
    {
        owned("plan_approval")
    }

    /// The request, whether the plan is approved, and the feedback (empty by
    /// default), or the error.
    pub fn arguments(&self, input: &ToolInput) -> (r: Result<(String, bool, String), String>)
        ensures
            match (lookup(input@.strings, "request_id"@), lookup_flag(input@.bools, "approve"@)) {
                (None, _) => r matches Err(e) && e@ == "Invalid request_id"@,
                (Some(_), None) => r matches Err(e) && e@ == "Invalid approve"@,
                (Some(id), Some(a)) => r matches Ok(x) && x.0@ == id && x.1 == a && x.2@ == (match lookup(input@.strings, "feedback"@) {
                    Some(t) => t,
                    None => Seq::<char>::empty(),
                }),
            },
    {
        request_answer(input, "feedback")
    }
}

} // verus!
