//! Recovering the agent loop from failed requests and truncated answers:
//! which failures are retried, how, and how often.
use vstd::prelude::*;

use crate::message::{ContentView, Message, MessageContent, MessageView, Role};
use crate::text::{concat, contains, contains_spec, owned, take_chars, take_chars_spec};

verus! {

/// How many times in a row each kind of recovery is tried.
pub const MAX_RECOVERY_ATTEMPTS: u32 = 3;

/// The first retry waits one second; each further retry doubles the wait.
pub const BACKOFF_BASE_DELAY_MS: u64 = 1000;

/// No retry waits longer than thirty seconds, jitter aside.
pub const BACKOFF_MAX_DELAY_MS: u64 = 30000;

/// A transcript longer than this many characters is compacted after a turn.
pub const CONTEXT_THRESHOLD_CHARS: usize = 50000;

/// Why the model stopped answering.
#[derive(Clone, Copy, Debug, PartialEq, Eq, Structural)]
pub enum StopReason {
    EndTurn,
    MaxTokens,
    StopSequence,
    ToolUse,
    Refusal,
}

/// Whether the loop goes on or stops.
#[derive(Clone, Copy, Debug, PartialEq, Eq, Structural)]
pub enum LoopControl {
    Continue,
    Stop,
}

/// What to do about a failed request.
#[derive(Clone, Copy, Debug, PartialEq, Eq, Structural)]
pub enum RecoveryAction {
    /// Compact the conversation, then retry.
    Compact,
    /// Wait this many milliseconds, then retry.
    Backoff { delay_ms: u64 },
    /// Give up on this query.
    Stop,
}

/// What to do after an answer arrived.
#[derive(Clone, Copy, Debug, PartialEq, Eq, Structural)]
pub enum TurnStep {
    /// The answer was cut off: add the continuation prompt and ask again.
    ContinueTruncated,
    /// Run the tools the answer calls, then ask again.
    RunTools,
    /// The answer is final.
    Finish,
}

/// The recovery budget of one query: how many recoveries of each kind were
/// tried in a row.
pub struct RecoveryState {
    pub continuation_attempts: u32,
    pub compact_attempts: u32,
    pub transport_attempts: u32,
}

/// The error text names a prompt that is too long for the model.
pub open spec fn prompt_too_long_spec(t: Seq<char>) -> bool {
    (contains_spec(t, "prompt"@) && contains_spec(t, "long"@)) || contains_spec(t, "overlong_prompt"@)
        || contains_spec(t, "too many tokens"@) || contains_spec(t, "context length"@)
}

/// The error text names a failure of the transport that may pass.
pub open spec fn transient_spec(t: Seq<char>) -> bool {
    contains_spec(t, "timeout"@) || contains_spec(t, "timed out"@) || contains_spec(t, "rate limit"@)
        || contains_spec(t, "too many requests"@) || contains_spec(t, "unavailable"@)
        || contains_spec(t, "connection"@) || contains_spec(t, "overloaded"@) || contains_spec(
        t,
        "temporarily"@,
    ) || contains_spec(t, "econnreset"@) || contains_spec(t, "broken pipe"@)
}

/// Whether the (lower-cased) error text says the prompt is too long.
pub fn is_prompt_too_long_error(error_text: &str) -> (r: bool)
    ensures
        r == prompt_too_long_spec(error_text@),
{
    (contains(error_text, "prompt") && contains(error_text, "long")) || contains(
        error_text,
        "overlong_prompt",
    ) || contains(error_text, "too many tokens") || contains(error_text, "context length")
}

/// Whether the (lower-cased) error text names a transient transport failure.
pub fn is_transient_transport_error(error_text: &str) -> (r: bool)
    ensures
        r == transient_spec(error_text@),
{
    contains(error_text, "timeout") || contains(error_text, "timed out") || contains(
        error_text,
        "rate limit",
    ) || contains(error_text, "too many requests") || contains(error_text, "unavailable")
        || contains(error_text, "connection") || contains(error_text, "overloaded") || contains(
        error_text,
        "temporarily",
    ) || contains(error_text, "econnreset") || contains(error_text, "broken pipe")
}

/// The wait before retry number `attempt` (counting from 0), in milliseconds:
/// one second doubled per attempt, at most thirty seconds, plus the jitter
/// of `clock_millis % 1000` milliseconds.
pub open spec fn backoff_spec(attempt: nat, clock_millis: nat) -> nat {
    let base = if attempt >= 5 {
        BACKOFF_MAX_DELAY_MS as nat
    } else {
        let doubled = BACKOFF_BASE_DELAY_MS as nat * vstd::arithmetic::power2::pow2(attempt);
        if doubled > BACKOFF_MAX_DELAY_MS {
            BACKOFF_MAX_DELAY_MS as nat
        } else {
            doubled
        }
    };
    base + clock_millis % 1000
}

/// The wait before retry number `attempt`, in milliseconds, with the jitter
/// taken from the sub-second milliseconds of the clock.
pub fn backoff_delay(attempt: u32, clock_millis: u32) -> (ms: u64)
    ensures
        ms == backoff_spec(attempt as nat, clock_millis as nat),
{
    let jitter = (clock_millis % 1000) as u64;
    if attempt >= 5 {
        return BACKOFF_MAX_DELAY_MS + jitter;
    }
    let doubled: u64 = match attempt {
        0 => 1000,
        1 => 2000,
        2 => 4000,
        3 => 8000,
        _ => 16000,
    };
    proof {
        vstd::arithmetic::power2::lemma2_to64();
    }
    let base = if doubled > BACKOFF_MAX_DELAY_MS {
        BACKOFF_MAX_DELAY_MS
    } else {
        doubled
    };
    base + jitter
}

/// The budget is within its limits.
pub open spec fn within_budget(s: RecoveryState) -> bool {
    &&& s.continuation_attempts <= MAX_RECOVERY_ATTEMPTS
    &&& s.compact_attempts <= MAX_RECOVERY_ATTEMPTS
    &&& s.transport_attempts <= MAX_RECOVERY_ATTEMPTS
}

impl RecoveryState {
    /// A fresh budget for one query.
    pub fn new() -> (s: RecoveryState)
        ensures
            s.continuation_attempts == 0,
            s.compact_attempts == 0,
            s.transport_attempts == 0,
    {
        RecoveryState { continuation_attempts: 0, compact_attempts: 0, transport_attempts: 0 }
    }

    /// Decides what to do about a failed request whose lower-cased error text
    /// is `error_text`: a prompt that is too long is compacted, a transient
    /// transport failure is retried after a backoff, each at most three times
    /// in a row; anything else stops the query.
    pub fn on_request_error(&mut self, error_text: &str, clock_millis: u32) -> (a: RecoveryAction)
        requires
            within_budget(*old(self)),
        ensures
            (*final(self), a) == error_step(*old(self), error_text@, clock_millis as nat),
            within_budget(*final(self)),
    {
        if is_prompt_too_long_error(error_text) {
            if self.compact_attempts >= MAX_RECOVERY_ATTEMPTS {
                return RecoveryAction::Stop;
            }
            self.compact_attempts = self.compact_attempts + 1;
            return RecoveryAction::Compact;
        }
        if is_transient_transport_error(error_text) {
            if self.transport_attempts >= MAX_RECOVERY_ATTEMPTS {
                return RecoveryAction::Stop;
            }
            let delay_ms = backoff_delay(self.transport_attempts, clock_millis);
            self.transport_attempts = self.transport_attempts + 1;
            return RecoveryAction::Backoff { delay_ms };
        }
        RecoveryAction::Stop
    }

    /// Notes that a request went through: transport retries start over.
    pub fn on_request_ok(&mut self)
        ensures
            final(self).transport_attempts == 0,
            final(self).continuation_attempts == old(self).continuation_attempts,
            final(self).compact_attempts == old(self).compact_attempts,
    {
        self.transport_attempts = 0;
    }

    /// Whether a cut-off answer is continued: yes, unless three continuations
    /// in a row were already asked for.
    pub fn handle_max_tokens_recovery(&mut self) -> (r: bool)
        requires
            within_budget(*old(self)),
        ensures
            within_budget(*final(self)),
            r == (old(self).continuation_attempts < MAX_RECOVERY_ATTEMPTS),
            final(self).continuation_attempts == if r {
                old(self).continuation_attempts + 1
            } else {
                old(self).continuation_attempts as int
            },
            final(self).compact_attempts == old(self).compact_attempts,
            final(self).transport_attempts == old(self).transport_attempts,
    {
        if self.continuation_attempts >= MAX_RECOVERY_ATTEMPTS {
            return false;
        }
        self.continuation_attempts = self.continuation_attempts + 1;
        true
    }

    /// Decides what follows an answer that stopped for `stop`: a cut-off
    /// answer is continued while the budget lasts; otherwise continuations
    /// start over, and the tools run unless the model stopped for another
    /// reason than a tool call.
    pub fn after_response(&mut self, stop: Option<StopReason>) -> (step: TurnStep)
        requires
            within_budget(*old(self)),
        ensures
            within_budget(*final(self)),
            final(self).compact_attempts == old(self).compact_attempts,
            final(self).transport_attempts == old(self).transport_attempts,
            (stop == Some(StopReason::MaxTokens) && old(self).continuation_attempts < MAX_RECOVERY_ATTEMPTS) ==> step
                == TurnStep::ContinueTruncated && final(self).continuation_attempts == old(self).continuation_attempts
                + 1,
            !(stop == Some(StopReason::MaxTokens) && old(self).continuation_attempts < MAX_RECOVERY_ATTEMPTS) ==> {
                &&& final(self).continuation_attempts == 0
                &&& step == match stop {
                    Some(StopReason::ToolUse) | None => TurnStep::RunTools,
                    Some(_) => TurnStep::Finish,
                }
            },
    {
        if stop == Some(StopReason::MaxTokens) && self.handle_max_tokens_recovery() {
            return TurnStep::ContinueTruncated;
        }
        self.continuation_attempts = 0;
        match stop {
            Some(StopReason::ToolUse) | None => TurnStep::RunTools,
            Some(_) => TurnStep::Finish,
        }
    }
}

/// The prompt that asks the model to go on after a cut-off answer.
pub open spec fn continuation_text() -> Seq<char> {
    "Output limit hit. Continue directly from where you stopped. No recap, no repetition. Pick up mid-sentence if needed."@
}

/// The user message that asks the model to go on after a cut-off answer.
pub fn continuation_message() -> (m: Message)
    ensures
        m@ == (MessageView { role: Role::User, content: ContentView::Text { content: continuation_text() } }),
{
    Message {
        role: Role::User,
        content: MessageContent::Text {
            content: owned(
                "Output limit hit. Continue directly from where you stopped. No recap, no repetition. Pick up mid-sentence if needed.",
            ),
        },
    }
}

/// Whether a transcript of `size` characters is compacted after a turn.
pub fn needs_auto_compact(size: usize) -> (r: bool)
    ensures
        r == (size > CONTEXT_THRESHOLD_CHARS),
{
    size > CONTEXT_THRESHOLD_CHARS
}

/// The request for a summary when recovering from a long context; at most
/// 80000 characters of the conversation's JSON are sent.
pub open spec fn recovery_prompt_spec(conversation: Seq<char>) -> Seq<char> {
    "Summarize this conversation for continuity. Include:\n1) Task overview and success criteria\n2) Current state: completed work, files touched\n3) Key decisions and failed approaches\n4) Remaining next steps\nBe concise but preserve critical details.\n\n"@
        + take_chars_spec(conversation, 80000)
}

/// The prompt that asks for a summary of the conversation.
pub fn recovery_summary_prompt(conversation_json: &str) -> (r: String)
    ensures
        r@ == recovery_prompt_spec(conversation_json@),
{
    let truncated = take_chars(conversation_json, 80000);
    concat(
        owned(
            "Summarize this conversation for continuity. Include:\n1) Task overview and success criteria\n2) Current state: completed work, files touched\n3) Key decisions and failed approaches\n4) Remaining next steps\nBe concise but preserve critical details.\n\n",
        ),
        truncated.as_str(),
    )
}

/// The text of the message that replaces a compacted conversation.
pub open spec fn recovered_text(summary: Seq<char>) -> Seq<char> {
    "This session continues from a previous conversation that was compacted. \nSummary of prior context:\n\n"@
        + summary + "\n\nContinue from where we left off without re-asking the user."@
}

/// The transcript that replaces a compacted conversation.
pub fn recovered_context(summary: &str) -> (r: Vec<Message>)
    ensures
        r@.len() == 1,
        r@[0]@ == (MessageView { role: Role::User, content: ContentView::Text { content: recovered_text(summary@) } }),
{
    let text = concat(
        concat(
            owned(
                "This session continues from a previous conversation that was compacted. \nSummary of prior context:\n\n",
            ),
            summary,
        ),
        "\n\nContinue from where we left off without re-asking the user.",
    );
    let mut r: Vec<Message> = Vec::new();
    r.push(Message { role: Role::User, content: MessageContent::Text { content: text } });
    r
}

/// The budget and the action after a failed request with error text `t`.
pub open spec fn error_step(s: RecoveryState, t: Seq<char>, clock_millis: nat) -> (RecoveryState, RecoveryAction) {
    if prompt_too_long_spec(t) {
        if s.compact_attempts >= MAX_RECOVERY_ATTEMPTS {
            (s, RecoveryAction::Stop)
        } else {
            (RecoveryState { compact_attempts: (s.compact_attempts + 1) as u32, ..s }, RecoveryAction::Compact)
        }
    } else if transient_spec(t) {
        if s.transport_attempts >= MAX_RECOVERY_ATTEMPTS {
            (s, RecoveryAction::Stop)
        } else {
            (
                RecoveryState { transport_attempts: (s.transport_attempts + 1) as u32, ..s },
                RecoveryAction::Backoff { delay_ms: backoff_spec(s.transport_attempts as nat, clock_millis) as u64 },
            )
        }
    } else {
        (s, RecoveryAction::Stop)
    }
}

/// The budget after `n` failed requests in a row, all with error text `t`.
pub open spec fn after_errors(s: RecoveryState, t: Seq<char>, clock_millis: nat, n: nat) -> RecoveryState
    decreases n,
{
    if n == 0 {
        s
    } else {
        error_step(after_errors(s, t, clock_millis, (n - 1) as nat), t, clock_millis).0
    }
}

/// A failure that keeps coming back stops the query: from any budget within
/// its limits, the fourth failed request in a row with the same error text
/// (or an earlier one) is answered with `Stop`.
pub proof fn law_repeated_failure_stops(s: RecoveryState, t: Seq<char>, clock_millis: nat)
    requires
        within_budget(s),
    ensures
        error_step(after_errors(s, t, clock_millis, MAX_RECOVERY_ATTEMPTS as nat), t, clock_millis).1
            == RecoveryAction::Stop,
{
    assert(after_errors(s, t, clock_millis, 0) == s);
    let s1 = after_errors(s, t, clock_millis, 1);
    let s2 = after_errors(s, t, clock_millis, 2);
    let s3 = after_errors(s, t, clock_millis, 3);
    assert(s1 == error_step(s, t, clock_millis).0);
    assert(s2 == error_step(s1, t, clock_millis).0);
    assert(s3 == error_step(s2, t, clock_millis).0);
}


/// A failed request whose error names a timeout, a rate limit, an overload or
/// a broken connection (and not an over-long prompt) is retried after a
/// back-off while the transport budget lasts: the wait is that of the
/// attempt, and the attempt is counted.
pub proof fn law_transient_errors_back_off(s: RecoveryState, t: Seq<char>, clock_millis: nat)
    requires
        ({
            ||| contains_spec(t, "timeout"@)
            ||| contains_spec(t, "timed out"@)
            ||| contains_spec(t, "rate limit"@)
            ||| contains_spec(t, "too many requests"@)
            ||| contains_spec(t, "unavailable"@)
            ||| contains_spec(t, "connection"@)
            ||| contains_spec(t, "overloaded"@)
            ||| contains_spec(t, "temporarily"@)
            ||| contains_spec(t, "econnreset"@)
            ||| contains_spec(t, "broken pipe"@)
        }),
        !prompt_too_long_spec(t),
        s.transport_attempts < MAX_RECOVERY_ATTEMPTS,
    ensures
        error_step(s, t, clock_millis).1 == (RecoveryAction::Backoff {
            delay_ms: backoff_spec(s.transport_attempts as nat, clock_millis) as u64,
        }),
        error_step(s, t, clock_millis).0.transport_attempts == s.transport_attempts + 1,
        error_step(s, t, clock_millis).0.compact_attempts == s.compact_attempts,
{
}


/// A failed request whose error says the prompt is too long is answered by
/// compacting while the compaction budget lasts, and that attempt is counted.
pub proof fn law_long_prompt_compacts(s: RecoveryState, t: Seq<char>, clock_millis: nat)
    requires
        contains_spec(t, "context length"@) || contains_spec(t, "too many tokens"@) || contains_spec(t, "overlong_prompt"@)
            || (contains_spec(t, "prompt"@) && contains_spec(t, "long"@)),
        s.compact_attempts < MAX_RECOVERY_ATTEMPTS,
    ensures
        error_step(s, t, clock_millis).1 == RecoveryAction::Compact,
        error_step(s, t, clock_millis).0.compact_attempts == s.compact_attempts + 1,
        error_step(s, t, clock_millis).0.transport_attempts == s.transport_attempts,
{
}

} // verus!
