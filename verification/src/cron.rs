//! Scheduled prompts: cron expressions that re-inject a prompt into the agent
//! loop when they fire, once or repeatedly, for a session or durably.
use std::collections::hash_map::DefaultHasher;
use std::hash::Hasher;
use vstd::prelude::*;
use vstd::std_specs::hash::DefaultHasherAdditionalSpecFns;

use crate::text::{
    char_count, concat, first_word, first_word_exec, join, join_spec, owned, parse_u32,
    parse_u32_spec, take_chars, trim, trim_spec, views,
};

verus! {

/// Recurring tasks older than this many days expire.
pub const AUTO_EXPIRY_DAYS: i64 = 7;

/// Jitter moves a task by one to this many minutes.
pub const JITTER_OFFSET_MAX_MINUTES: u64 = 4;

/// The clock readings, in seconds since 1970, that the scheduler is given:
/// about a quarter of a million years either way, inside what `chrono` holds.
pub open spec fn sane_time(ts: int) -> bool {
    -8_000_000_000_000 <= ts <= 8_000_000_000_000
}

/// The instants that the scheduler asks about: a clock reading moved back by
/// a task's jitter, or forward by a day.
pub open spec fn in_clock_range(ts: int) -> bool {
    -8_050_000_000_000 <= ts <= 8_050_000_000_000
}

// ---------------------------------------------------------------------------
// Outside: cron expressions, the clock's time zone, hashing
// ---------------------------------------------------------------------------

/// Whether the `cron` crate parses `expr` (`cron::Schedule::from_str`).
pub uninterp spec fn cron_valid(expr: Seq<char>) -> bool;

/// The first time, in seconds since 1970 (UTC), strictly after `after` at which
/// the schedule `expr` fires (`Schedule::after(..).next()`).
pub uninterp spec fn cron_next_fire(expr: Seq<char>, after: int) -> Option<int>;

/// Parses `expr` with `cron::Schedule::from_str` and keeps whether it worked.
#[verifier::external_body]
pub(crate) fn cron_parse_ok(expr: &str) -> (r: bool)
    ensures
        r == cron_valid(expr@),
{
    <cron::Schedule as std::str::FromStr>::from_str(expr).is_ok()
}

/// The next fire time of `expr` strictly after the UTC timestamp `after`
/// (`Schedule::after(&after).next()`), as a timestamp.
#[verifier::external_body]
fn cron_next_after(expr: &str, after: i64) -> (r: Option<i64>)
    requires
        cron_valid(expr@),
        -8_100_000_000_000 <= after <= 8_100_000_000_000,
    ensures
        match r {
            Some(x) => cron_next_fire(expr@, after as int) == Some(x as int),
            None => cron_next_fire(expr@, after as int) is None,
        },
{
    let schedule = <cron::Schedule as std::str::FromStr>::from_str(expr).unwrap();
    let start = chrono::DateTime::from_timestamp(after, 0).unwrap();
    schedule.after(&start).next().map(|next| next.timestamp())
}

/// A timestamp as RFC 3339 text in the machine's local time zone. The text
/// depends on the time zone, so nothing is stated of it.
#[verifier::external_body]
pub(crate) fn local_rfc3339(ts: i64) -> (r: String)
    requires
        in_clock_range(ts as int),
{
    chrono::DateTime::from_timestamp(ts, 0).unwrap().with_timezone(&chrono::Local).to_rfc3339()
}

/// The writes that `<str as Hash>::hash` makes into a hasher for `s` (each
/// write a sequence of bytes, as vstd models a `DefaultHasher`).
pub uninterp spec fn str_hash_writes(s: Seq<char>) -> Seq<Seq<u8>>;

/// Feeds `s` to the hasher (`<str as Hash>::hash`).
#[verifier::external_body]
fn hash_str_into(s: &str, h: &mut DefaultHasher)
    ensures
        final(h)@ == old(h)@ + str_hash_writes(s@),
{
    std::hash::Hash::hash(s, h)
}

// ---------------------------------------------------------------------------
// Records
// ---------------------------------------------------------------------------

/// Whether a task fires repeatedly or once.
#[derive(Clone, Copy, Debug, PartialEq, Eq, Structural)]
pub enum ScheduleMode {
    Recurring,
    OneShot,
}

impl ScheduleMode {
    /// `Recurring` for `true`, `OneShot` for `false`.
    pub fn from_recurring_flag(recurring: bool) -> (r: ScheduleMode)
        ensures
            r == if recurring {
                ScheduleMode::Recurring
            } else {
                ScheduleMode::OneShot
            },
    {
        if recurring {
            ScheduleMode::Recurring
        } else {
            ScheduleMode::OneShot
        }
    }

    /// The snake-case name of the mode.
    pub fn name(&self) -> (r: String)
        ensures
            r@ == mode_name(*self),
    {
        match self {
            ScheduleMode::Recurring => owned("recurring"),
            ScheduleMode::OneShot => owned("one_shot"),
        }
    }
}

pub open spec fn mode_name(m: ScheduleMode) -> Seq<char> {
    match m {
        ScheduleMode::Recurring => "recurring"@,
        ScheduleMode::OneShot => "one_shot"@,
    }
}

/// Whether a task lives for the session or is saved to disk.
#[derive(Clone, Copy, Debug, PartialEq, Eq, Structural)]
pub enum PersistenceMode {
    Session,
    Durable,
}

impl PersistenceMode {
    /// `Durable` for `true`, `Session` for `false`.
    pub fn from_durable_flag(durable: bool) -> (r: PersistenceMode)
        ensures
            r == if durable {
                PersistenceMode::Durable
            } else {
                PersistenceMode::Session
            },
    {
        if durable {
            PersistenceMode::Durable
        } else {
            PersistenceMode::Session
        }
    }

    /// Whether the task is saved to disk.
    pub fn is_durable(self) -> (r: bool)
        ensures
            r == (self == PersistenceMode::Durable),
    {
        match self {
            PersistenceMode::Durable => true,
            PersistenceMode::Session => false,
        }
    }

    /// The snake-case name of the mode.
    pub fn name(&self) -> (r: String)
        ensures
            r@ == persistence_name(*self),
    {
        match self {
            PersistenceMode::Session => owned("session"),
            PersistenceMode::Durable => owned("durable"),
        }
    }
}

pub open spec fn persistence_name(p: PersistenceMode) -> Seq<char> {
    match p {
        PersistenceMode::Session => "session"@,
        PersistenceMode::Durable => "durable"@,
    }
}

/// A scheduled prompt.
pub struct ScheduledTaskRecord {
    pub id: String,
    pub cron: String,
    pub prompt: String,
    pub mode: ScheduleMode,
    pub persistence: PersistenceMode,
    pub created_at: i64,
    pub last_fired_at: Option<i64>,
    pub jitter_offset_minutes: u64,
}

pub struct TaskView {
    pub id: Seq<char>,
    pub cron: Seq<char>,
    pub prompt: Seq<char>,
    pub mode: ScheduleMode,
    pub persistence: PersistenceMode,
    pub created_at: i64,
    pub last_fired_at: Option<i64>,
    pub jitter_offset_minutes: u64,
}

impl View for ScheduledTaskRecord {
    type V = TaskView;

    open spec fn view(&self) -> TaskView {
        TaskView {
            id: self.id@,
            cron: self.cron@,
            prompt: self.prompt@,
            mode: self.mode,
            persistence: self.persistence,
            created_at: self.created_at,
            last_fired_at: self.last_fired_at,
            jitter_offset_minutes: self.jitter_offset_minutes,
        }
    }
}

impl Clone for ScheduledTaskRecord {
    fn clone(&self) -> (r: Self)
        ensures
            r@ == self@,
    {
        ScheduledTaskRecord {
            id: self.id.clone(),
            cron: self.cron.clone(),
            prompt: self.prompt.clone(),
            mode: self.mode,
            persistence: self.persistence,
            created_at: self.created_at,
            last_fired_at: self.last_fired_at,
            jitter_offset_minutes: self.jitter_offset_minutes,
        }
    }
}

pub open spec fn task_views(v: Seq<ScheduledTaskRecord>) -> Seq<TaskView> {
    v.map_values(|t: ScheduledTaskRecord| t@)
}

/// A prompt that a fired task injects into the loop.
pub struct CronNotification {
    pub task_id: String,
    pub prompt: String,
}

impl CronNotification {
    /// The text injected into the loop: `[Scheduled task id]: prompt`.
    pub fn describe(&self) -> (r: String)
        ensures
            r@ == "[Scheduled task "@ + self.task_id@ + "]: "@ + self.prompt@,
    {
        concat(concat(concat(owned("[Scheduled task "), self.task_id.as_str()), "]: "), self.prompt.as_str())
    }

    /// The notification that `/test` enqueues.
    pub fn test_notification() -> (r: CronNotification)
        ensures
            r.task_id@ == "test-0000"@,
            r.prompt@ == "This is a test notification."@,
    {
        CronNotification { task_id: owned("test-0000"), prompt: owned("This is a test notification.") }
    }
}

/// A fire time that passed while the harness was not running.
pub struct MissedTask {
    pub id: String,
    pub cron: String,
    pub prompt: String,
    pub missed_at: String,
}


/// `text` cut to `limit` characters, with `...` where something was cut.
pub open spec fn ellipsis_spec(text: Seq<char>, limit: nat) -> Seq<char> {
    if text.len() > limit {
        text.take(limit as int) + "..."@
    } else {
        text
    }
}

/// `text` cut to `limit` characters, with `...` where something was cut.
pub fn truncate_chars(text: &str, limit: usize) -> (r: String)
    ensures
        r@ == ellipsis_spec(text@, limit as nat),
{
    let cut = take_chars(text, limit);
    if char_count(text) > limit {
        concat(cut, "...")
    } else {
        cut
    }
}

impl ScheduledTaskRecord {
    /// The task's line in the listing, given its age in hours as text (one
    /// decimal): `ID  CRON  [MODE/PERSISTENCE] (AGEh old): PROMPT`, the prompt
    /// cut to sixty characters.
    pub fn describe(&self, age_hours: &str) -> (r: String)
        ensures
            r@ == self.id@ + "  "@ + self.cron@ + "  ["@ + mode_name(self.mode) + "/"@
                + persistence_name(self.persistence) + "] ("@ + age_hours@ + "h old): "@
                + ellipsis_spec(self.prompt@, 60),
    {
        let head = concat(concat(concat(concat(owned(self.id.as_str()), "  "), self.cron.as_str()), "  ["), self.mode.name().as_str());
        let mid = concat(concat(concat(concat(head, "/"), self.persistence.name().as_str()), "] ("), age_hours);
        concat(concat(mid, "h old): "), truncate_chars(self.prompt.as_str(), 60).as_str())
    }
}

/// The listing: one line per task, or `No scheduled tasks.`.
pub fn listing_text(lines: &Vec<String>) -> (r: String)
    ensures
        r@ == if lines@.len() == 0 {
            "No scheduled tasks."@
        } else {
            join_spec(views(lines@), "\n"@)
        },
{
    if lines.len() == 0 {
        owned("No scheduled tasks.")
    } else {
        join(lines, "\n")
    }
}

// ---------------------------------------------------------------------------
// Expressions
// ---------------------------------------------------------------------------

/// The jitter of a recurring expression: tasks on the hour or the half hour
/// (first field `0` or `30`) move by one to four minutes, chosen by the hash
/// of the trimmed expression; others do not move.
pub open spec fn jitter_spec(expr: Seq<char>) -> u64 {
    match first_word(expr) {
        Some(w) => match parse_u32_spec(w) {
            Some(m) => if m == 0 || m == 30 {
                (DefaultHasher::spec_finish(str_hash_writes(trim_spec(expr))) % JITTER_OFFSET_MAX_MINUTES + 1) as u64
            } else {
                0
            },
            None => 0,
        },
        None => 0,
    }
}

/// The jitter, in minutes, of a recurring task with expression `expr`.
pub fn compute_jitter(expr: &str) -> (r: u64)
    ensures
        r == jitter_spec(expr@),
{
    let first = match first_word_exec(expr) {
        Some(w) => w,
        None => return 0,
    };
    let minute = match parse_u32(first.as_str()) {
        Some(m) => m,
        None => return 0,
    };
    if minute != 0 && minute != 30 {
        return 0;
    }
    let trimmed = trim(expr);
    let mut hasher = DefaultHasher::new();
    hash_str_into(trimmed.as_str(), &mut hasher);
    assert(hasher@ =~= str_hash_writes(trimmed@));
    (hasher.finish() % JITTER_OFFSET_MAX_MINUTES) + 1
}


/// A jitter moves a task by at most `JITTER_OFFSET_MAX_MINUTES` minutes, and
/// by at least one where the first field is `0` or `30`.
pub proof fn law_jitter_bounded(expr: Seq<char>)
    ensures
        jitter_spec(expr) <= JITTER_OFFSET_MAX_MINUTES,
        (first_word(expr) matches Some(w) && (parse_u32_spec(w) == Some(0u32) || parse_u32_spec(w) == Some(30u32)))
            ==> jitter_spec(expr) >= 1,
{
}

/// Whether `expr`, trimmed, is a cron expression; the error names it.
pub fn validate_schedule(expr: &str) -> (r: Result<(), String>)
    ensures
        r is Ok <==> cron_valid(trim_spec(expr@)),
        r matches Err(e) ==> e@ == "invalid cron expression: "@ + trim_spec(expr@),
{
    let trimmed = trim(expr);
    if cron_parse_ok(trimmed.as_str()) {
        Ok(())
    } else {
        Err(concat(owned("invalid cron expression: "), trimmed.as_str()))
    }
}

/// The start of the minute that contains `ts`.
pub open spec fn minute_start(ts: int) -> int {
    ts - ts % 60
}

/// The schedule `expr` fires in the minute that contains `ts`: its next fire
/// time after the minute before is the start of this minute.
pub open spec fn fires_in_minute(expr: Seq<char>, ts: int) -> bool {
    cron_next_fire(expr, minute_start(ts) - 60) == Some(minute_start(ts))
}

/// Whether the valid schedule `expr` fires in the minute that contains `ts`.
pub fn schedule_matches(expr: &str, ts: i64) -> (r: bool)
    requires
        cron_valid(expr@),
        in_clock_range(ts as int),
    ensures
        r == fires_in_minute(expr@, ts as int),
{
    let rem = ts % 60;
    let rem = if rem < 0 {
        rem + 60
    } else {
        rem
    };
    let start = ts - rem;
    assert(start == minute_start(ts as int));
    match cron_next_after(expr, start - 60) {
        Some(next) => next == start,
        None => false,
    }
}

} // verus!
