//! The table of scheduled prompts: creating and deleting tasks, the
//! once-a-minute check that fires them, what a restart missed, and the
//! durable part that is saved to disk.
use vstd::prelude::*;

use crate::cron::{
    compute_jitter, cron_parse_ok, cron_valid, fires_in_minute, in_clock_range, local_rfc3339,
    sane_time, schedule_matches, MissedTask, AUTO_EXPIRY_DAYS, jitter_spec, mode_name, persistence_name, task_views,
    validate_schedule, CronNotification, PersistenceMode, ScheduleMode, ScheduledTaskRecord,
    TaskView,
};
use crate::text::{concat, hex08, hex08_of, owned, str_eq, trim, trim_spec, views};

verus! {

/// The view of a scheduler: its tasks in table order, the notifications not
/// yet drained as `(task id, prompt)`, and the number the next id is made of.
pub struct SchedulerView {
    pub tasks: Seq<TaskView>,
    pub notes: Seq<(Seq<char>, Seq<char>)>,
    pub next_id: u64,
}

/// No two tasks share an id.
pub open spec fn unique_ids(s: Seq<TaskView>) -> bool {
    forall|i: int, j: int| 0 <= i < s.len() && 0 <= j < s.len() && i != j ==> s[i].id != s[j].id
}

/// Some task has the id `id`.
pub open spec fn has_id(s: Seq<TaskView>, id: Seq<char>) -> bool {
    exists|k: int| 0 <= k < s.len() && s[k].id == id
}

/// The index of the task with id `id`, where there is one.
pub open spec fn index_of_id(s: Seq<TaskView>, id: Seq<char>) -> int {
    choose|k: int| 0 <= k < s.len() && s[k].id == id
}

/// `s` after storing `t` under its id: it replaces the task of that id, or
/// comes last (`HashMap::insert`).
pub open spec fn upsert(s: Seq<TaskView>, t: TaskView) -> Seq<TaskView> {
    if has_id(s, t.id) {
        s.update(index_of_id(s, t.id), t)
    } else {
        s.push(t)
    }
}

/// `s` after storing each of `ts` in turn.
pub open spec fn upsert_all(s: Seq<TaskView>, ts: Seq<TaskView>) -> Seq<TaskView>
    decreases ts.len(),
{
    if ts.len() == 0 {
        s
    } else {
        upsert(upsert_all(s, ts.drop_last()), ts.last())
    }
}

/// `s` without the task of id `id`.
pub open spec fn remove_id(s: Seq<TaskView>, id: Seq<char>) -> Seq<TaskView> {
    if has_id(s, id) {
        s.remove(index_of_id(s, id))
    } else {
        s
    }
}

/// The tasks of `s` whose persistence is `p`, in order.
pub open spec fn with_persistence(s: Seq<TaskView>, p: PersistenceMode) -> Seq<TaskView>
    decreases s.len(),
{
    if s.len() == 0 {
        s
    } else if s.last().persistence == p {
        with_persistence(s.drop_last(), p).push(s.last())
    } else {
        with_persistence(s.drop_last(), p)
    }
}

/// The number that follows `n` (`fetch_add(1)` on an `AtomicU64` wraps).
pub open spec fn next_number(n: u64) -> u64 {
    if n == u64::MAX {
        0
    } else {
        (n + 1) as u64
    }
}

/// The task that `create` makes from its arguments, with id number `n`.
pub open spec fn new_task(
    n: u64,
    expr: Seq<char>,
    prompt: Seq<char>,
    recurring: bool,
    durable: bool,
    now: i64,
) -> TaskView {
    TaskView {
        id: hex08(n as nat),
        cron: trim_spec(expr),
        prompt: prompt,
        mode: if recurring {
            ScheduleMode::Recurring
        } else {
            ScheduleMode::OneShot
        },
        persistence: if durable {
            PersistenceMode::Durable
        } else {
            PersistenceMode::Session
        },
        created_at: now,
        last_fired_at: None,
        jitter_offset_minutes: if recurring {
            jitter_spec(expr)
        } else {
            0
        },
    }
}

/// `Created task ID (MODE, PERSISTENCE): cron=CRON`.
pub open spec fn created_message(t: TaskView) -> Seq<char> {
    "Created task "@ + t.id + " ("@ + mode_name(t.mode) + ", "@ + persistence_name(t.persistence)
        + "): cron="@ + t.cron
}

/// What `delete` answers for the id `id`.
pub open spec fn delete_message(s: Seq<TaskView>, id: Seq<char>) -> Seq<char> {
    if has_id(s, id) {
        "Deleted task "@ + id
    } else {
        "Task "@ + id + " not found"@
    }
}


// ---------------------------------------------------------------------------
// The check that runs once a minute
// ---------------------------------------------------------------------------

/// A recurring task expires once it is more than `AUTO_EXPIRY_DAYS` whole
/// days old. (The code divides with truncation and this with flooring; for a
/// negative age both quotients are at most zero, so they agree on expiry.)
pub open spec fn is_expired(t: TaskView, now: int) -> bool {
    t.mode == ScheduleMode::Recurring && (now - t.created_at) / 86400 > AUTO_EXPIRY_DAYS
}

/// A task fires at `now` when it has not expired, its expression parses, and
/// the schedule fires in the minute of `now` moved back by the jitter.
pub open spec fn fires_now(t: TaskView, now: int) -> bool {
    &&& !is_expired(t, now)
    &&& cron_valid(trim_spec(t.cron))
    &&& fires_in_minute(trim_spec(t.cron), now - 60 * t.jitter_offset_minutes)
}

/// A task leaves the table when it expired, or fired once and for all.
pub open spec fn leaves_table(t: TaskView, now: int) -> bool {
    is_expired(t, now) || (fires_now(t, now) && t.mode == ScheduleMode::OneShot)
}

/// A task after the check: a fired one remembers `now` as its last fire.
pub open spec fn after_check(t: TaskView, now: int) -> TaskView {
    if fires_now(t, now) {
        TaskView { last_fired_at: Some(now as i64), ..t }
    } else {
        t
    }
}

/// The table after the check, in order.
pub open spec fn kept_after_check(ts: Seq<TaskView>, now: int) -> Seq<TaskView>
    decreases ts.len(),
{
    if ts.len() == 0 {
        ts
    } else if leaves_table(ts.last(), now) {
        kept_after_check(ts.drop_last(), now)
    } else {
        kept_after_check(ts.drop_last(), now).push(after_check(ts.last(), now))
    }
}

/// The notifications that the check queues, `(id, prompt)`, in table order.
pub open spec fn fired_notes(ts: Seq<TaskView>, now: int) -> Seq<(Seq<char>, Seq<char>)>
    decreases ts.len(),
{
    if ts.len() == 0 {
        Seq::empty()
    } else if fires_now(ts.last(), now) {
        fired_notes(ts.drop_last(), now).push((ts.last().id, ts.last().prompt))
    } else {
        fired_notes(ts.drop_last(), now)
    }
}

/// The ids of the tasks that fire.
pub open spec fn fired_ids(ts: Seq<TaskView>, now: int) -> Seq<Seq<char>>
    decreases ts.len(),
{
    if ts.len() == 0 {
        Seq::empty()
    } else if fires_now(ts.last(), now) {
        fired_ids(ts.drop_last(), now).push(ts.last().id)
    } else {
        fired_ids(ts.drop_last(), now)
    }
}

/// The ids of the tasks that expire.
pub open spec fn expired_ids(ts: Seq<TaskView>, now: int) -> Seq<Seq<char>>
    decreases ts.len(),
{
    if ts.len() == 0 {
        Seq::empty()
    } else if is_expired(ts.last(), now) {
        expired_ids(ts.drop_last(), now).push(ts.last().id)
    } else {
        expired_ids(ts.drop_last(), now)
    }
}

/// The ids of the one-shot tasks that fire and are done.
pub open spec fn completed_ids(ts: Seq<TaskView>, now: int) -> Seq<Seq<char>>
    decreases ts.len(),
{
    if ts.len() == 0 {
        Seq::empty()
    } else if fires_now(ts.last(), now) && ts.last().mode == ScheduleMode::OneShot {
        completed_ids(ts.drop_last(), now).push(ts.last().id)
    } else {
        completed_ids(ts.drop_last(), now)
    }
}

/// Whether the check changes what is on disk: a durable task fired, or a
/// task left the table.
pub open spec fn check_saves(ts: Seq<TaskView>, now: int) -> bool
    decreases ts.len(),
{
    if ts.len() == 0 {
        false
    } else {
        check_saves(ts.drop_last(), now) || leaves_table(ts.last(), now) || (fires_now(ts.last(), now)
            && ts.last().persistence == PersistenceMode::Durable)
    }
}

/// Every task's jitter keeps the instant it is checked at in range.
pub open spec fn check_times_in_range(ts: Seq<TaskView>, now: int) -> bool {
    forall|i: int| 0 <= i < ts.len() ==> in_clock_range(now - 60 * (#[trigger] ts[i]).jitter_offset_minutes)
}

/// What a check did: the tasks that fired, expired and completed, by id in
/// table order, and whether the durable tasks must be written to disk.
pub struct CheckReport {
    pub fired: Vec<String>,
    pub expired: Vec<String>,
    pub completed: Vec<String>,
    pub save: bool,
}

proof fn lemma_kept_after_check(s: Seq<TaskView>, now: int)
    ensures
        forall|j: int| 0 <= j < kept_after_check(s, now).len() ==> has_id(s, (#[trigger] kept_after_check(s, now)[j]).id),
        unique_ids(s) ==> unique_ids(kept_after_check(s, now)),
    decreases s.len(),
{
    if s.len() > 0 {
        let d = s.drop_last();
        lemma_kept_after_check(d, now);
        let r = kept_after_check(d, now);
        assert forall|j: int| 0 <= j < r.len() implies has_id(s, (#[trigger] r[j]).id) by {
            let k = choose|k: int| 0 <= k < d.len() && d[k].id == r[j].id;
            assert(s[k] == d[k]);
        }
        assert(s[s.len() - 1] == s.last());
        let u = after_check(s.last(), now);
        assert(u.id == s.last().id);
        if unique_ids(s) {
            assert(unique_ids(d)) by {
                assert forall|a: int, b: int| 0 <= a < d.len() && 0 <= b < d.len() && a != b implies d[a].id
                    != d[b].id by {
                    assert(d[a] == s[a] && d[b] == s[b]);
                }
            }
            if !leaves_table(s.last(), now) {
                assert(!has_id(r, u.id)) by {
                    if has_id(r, u.id) {
                        let j = choose|j: int| 0 <= j < r.len() && r[j].id == u.id;
                        let k = choose|k: int| 0 <= k < d.len() && d[k].id == r[j].id;
                        assert(s[k] == d[k]);
                    }
                }
                lemma_push_unique(r, u);
            }
        }
        if !leaves_table(s.last(), now) {
            let n = r.push(u);
            assert forall|j: int| 0 <= j < n.len() implies has_id(s, (#[trigger] n[j]).id) by {
                if j < r.len() {
                    assert(n[j] == r[j]);
                } else {
                    assert(n[j].id == s[s.len() - 1].id);
                }
            }
        }
    }
}

/// Whether `t` has expired at `now`, and whether it fires.
fn check_task(t: &ScheduledTaskRecord, now: i64) -> (r: (bool, bool))
    requires
        sane_time(now as int),
        in_clock_range(now - 60 * t.jitter_offset_minutes),
    ensures
        r.0 == is_expired(t@, now as int),
        r.1 == fires_now(t@, now as int),
{
    let age: i128 = now as i128 - t.created_at as i128;
    let recurring = match t.mode {
        ScheduleMode::Recurring => true,
        ScheduleMode::OneShot => false,
    };
    if recurring && age >= 691200 {
        assert(age / 86400 > 7) by (nonlinear_arith)
            requires
                age >= 691200,
        ;
        return (true, false);
    }
    assert(!is_expired(t@, now as int)) by {
        if recurring {
            assert(age / 86400 <= 7) by (nonlinear_arith)
                requires
                    age < 691200,
            ;
        }
    }
    let expr = trim(t.cron.as_str());
    if !cron_parse_ok(expr.as_str()) {
        return (false, false);
    }
    let at: i64 = now - 60 * (t.jitter_offset_minutes as i64);
    (false, schedule_matches(expr.as_str(), at))
}


// ---------------------------------------------------------------------------
// Listing and missed fires
// ---------------------------------------------------------------------------

/// `s` (ordered by creation time) with `t` inserted after every task created
/// no later than it.
pub open spec fn insert_by_created(s: Seq<TaskView>, t: TaskView) -> Seq<TaskView>
    decreases s.len(),
{
    if s.len() == 0 {
        seq![t]
    } else if s.last().created_at <= t.created_at {
        s.push(t)
    } else {
        insert_by_created(s.drop_last(), t).push(s.last())
    }
}

/// `s` ordered by creation time; tasks created at the same second keep their
/// table order.
pub open spec fn sort_by_created(s: Seq<TaskView>) -> Seq<TaskView>
    decreases s.len(),
{
    if s.len() == 0 {
        s
    } else {
        insert_by_created(sort_by_created(s.drop_last()), s.last())
    }
}

/// Ordered by creation time.
pub open spec fn created_sorted(s: Seq<TaskView>) -> bool {
    forall|i: int, j: int| 0 <= i <= j < s.len() ==> s[i].created_at <= s[j].created_at
}

proof fn lemma_insert_by_created_at(s: Seq<TaskView>, t: TaskView, k: int)
    requires
        0 <= k <= s.len(),
        forall|j: int| k <= j < s.len() ==> (#[trigger] s[j]).created_at > t.created_at,
        k == 0 || s[k - 1].created_at <= t.created_at,
    ensures
        insert_by_created(s, t) == s.take(k).push(t) + s.skip(k),
    decreases s.len(),
{
    if s.len() == 0 {
        assert(s.take(k).push(t) + s.skip(k) =~= seq![t]);
    } else if k == s.len() {
        assert(s.take(k) =~= s);
        assert(s.take(k).push(t) + s.skip(k) =~= s.push(t));
    } else {
        assert(s.last() == s[s.len() - 1]);
        let d = s.drop_last();
        assert forall|j: int| k <= j < d.len() implies (#[trigger] d[j]).created_at > t.created_at by {
            assert(d[j] == s[j]);
        }
        if k > 0 {
            assert(d[k - 1] == s[k - 1]);
        }
        lemma_insert_by_created_at(d, t, k);
        assert(d.take(k) =~= s.take(k));
        assert((d.take(k).push(t) + d.skip(k)).push(s.last()) =~= s.take(k).push(t) + s.skip(k));
    }
}

proof fn lemma_insert_by_created(s: Seq<TaskView>, t: TaskView)
    requires
        created_sorted(s),
    ensures
        created_sorted(insert_by_created(s, t)),
        insert_by_created(s, t).to_multiset() == s.to_multiset().insert(t),
    decreases s.len(),
{
    broadcast use vstd::seq_lib::to_multiset_build;
    if s.len() == 0 {
        assert(seq![t] =~= s.push(t));
    } else if s.last().created_at <= t.created_at {
        let n = s.push(t);
        assert forall|i: int, j: int| 0 <= i <= j < n.len() implies n[i].created_at <= n[j].created_at by {
            if j == s.len() {
                if i < s.len() {
                    assert(s[i].created_at <= s[s.len() - 1].created_at);
                }
            } else {
                assert(n[i] == s[i] && n[j] == s[j]);
            }
        }
    } else {
        let d = s.drop_last();
        assert(created_sorted(d)) by {
            assert forall|i: int, j: int| 0 <= i <= j < d.len() implies d[i].created_at <= d[j].created_at by {
                assert(d[i] == s[i] && d[j] == s[j]);
            }
        }
        lemma_insert_by_created(d, t);
        let r = insert_by_created(d, t);
        assert(s =~= d.push(s.last()));
        assert(r.to_multiset() == d.to_multiset().insert(t));
        assert(r.push(s.last()).to_multiset() =~= s.to_multiset().insert(t));
        let n = r.push(s.last());
        assert forall|x: TaskView| r.to_multiset().contains(x) implies x.created_at <= s.last().created_at by {
            if x != t {
                assert(d.to_multiset().contains(x));
                vstd::seq_lib::to_multiset_contains(d, x);
                let k = choose|k: int| 0 <= k < d.len() && d[k] == x;
                assert(s[k] == d[k]);
                assert(s[k].created_at <= s[s.len() - 1].created_at);
            }
        }
        assert forall|i: int, j: int| 0 <= i <= j < n.len() implies n[i].created_at <= n[j].created_at by {
            if j == r.len() {
                if i < r.len() {
                    vstd::seq_lib::to_multiset_contains(r, r[i]);
                    assert(r.to_multiset().contains(r[i]));
                }
            } else {
                assert(n[i] == r[i] && n[j] == r[j]);
            }
        }
    }
}

/// Listing by creation time orders the tasks by creation time and lists
/// each task as often as the table holds it.
pub proof fn law_listing_sorted(s: Seq<TaskView>)
    ensures
        created_sorted(sort_by_created(s)),
        sort_by_created(s).to_multiset() == s.to_multiset(),
    decreases s.len(),
{
    broadcast use vstd::seq_lib::to_multiset_build;
    if s.len() == 0 {
    } else {
        law_listing_sorted(s.drop_last());
        lemma_insert_by_created(sort_by_created(s.drop_last()), s.last());
        assert(s =~= s.drop_last().push(s.last()));
    }
}

/// The first minute after the last fire `last`, one minute apart and at most
/// `cap`, in which `expr` fires, from the `k`-th minute on.
pub open spec fn first_fire_from(expr: Seq<char>, last: int, cap: int, k: int) -> Option<int>
    decreases 1441 - k,
{
    if k > 1440 || last + 60 * k > cap {
        None
    } else if fires_in_minute(expr, last + 60 * k) {
        Some(last + 60 * k)
    } else {
        first_fire_from(expr, last, cap, k + 1)
    }
}

/// The fire time that a task missed while the harness was down: the first
/// minute, stepping from its last fire plus a minute up to `now` and at most a
/// day, in which its schedule fires. Tasks that never fired, whose expression
/// does not parse, or whose last fire lies outside the clock's range miss
/// nothing.
pub open spec fn missed_fire(t: TaskView, now: int) -> Option<int> {
    match t.last_fired_at {
        None => None,
        Some(last) => if cron_valid(trim_spec(t.cron)) && sane_time(last as int) {
            first_fire_from(
                trim_spec(t.cron),
                last as int,
                if now < last + 86400 {
                    now
                } else {
                    last + 86400
                },
                1,
            )
        } else {
            None
        },
    }
}

/// The tasks that missed a fire, as `(id, cron, prompt)`, in table order.
pub open spec fn missed_report(ts: Seq<TaskView>, now: int) -> Seq<(Seq<char>, Seq<char>, Seq<char>)>
    decreases ts.len(),
{
    if ts.len() == 0 {
        Seq::empty()
    } else if missed_fire(ts.last(), now) is Some {
        missed_report(ts.drop_last(), now).push((ts.last().id, ts.last().cron, ts.last().prompt))
    } else {
        missed_report(ts.drop_last(), now)
    }
}

pub open spec fn missed_views(v: Seq<MissedTask>) -> Seq<(Seq<char>, Seq<char>, Seq<char>)> {
    v.map_values(|m: MissedTask| (m.id@, m.cron@, m.prompt@))
}

proof fn lemma_first_fire_range(expr: Seq<char>, last: int, cap: int, k: int)
    requires
        k >= 1,
        cap <= last + 86400,
    ensures
        match first_fire_from(expr, last, cap, k) {
            Some(x) => last + 60 <= x <= last + 86400,
            None => true,
        },
    decreases 1441 - k,
{
    if !(k > 1440 || last + 60 * k > cap) && !fires_in_minute(expr, last + 60 * k) {
        lemma_first_fire_range(expr, last, cap, k + 1);
    }
}

/// The time that `task` missed at `now`, if any.
pub fn missed_fire_time(task: &ScheduledTaskRecord, now: i64) -> (r: Option<i64>)
    requires
        sane_time(now as int),
    ensures
        match r {
            Some(x) => missed_fire(task@, now as int) == Some(x as int),
            None => missed_fire(task@, now as int) is None,
        },
{
    let last = match task.last_fired_at {
        Some(l) => l,
        None => return None,
    };
    let expr = trim(task.cron.as_str());
    if !cron_parse_ok(expr.as_str()) || last < -8_000_000_000_000 || last > 8_000_000_000_000 {
        return None;
    }
    let cap: i64 = if now < last + 86400 {
        now
    } else {
        last + 86400
    };
    let mut k: i64 = 1;
    let mut check: i64 = last + 60;
    while check <= cap
        invariant
            1 <= k <= 1441,
            check == last + 60 * k,
            sane_time(last as int),
            cap <= last + 86400,
            cap == (if now < last + 86400 { now as int } else { last + 86400 }),
            cron_valid(expr@),
            expr@ == trim_spec(task@.cron),
            task@.last_fired_at == Some(last),
            first_fire_from(expr@, last as int, cap as int, 1) == first_fire_from(expr@, last as int, cap as int, k as int),
        decreases 1441 - k,
    {
        assert(k <= 1440);
        if schedule_matches(expr.as_str(), check) {
            assert(first_fire_from(expr@, last as int, cap as int, k as int) == Some(check as int));
            return Some(check);
        }
        k = k + 1;
        check = check + 60;
    }
    None
}

/// One notice per task that missed a fire, in table order.
fn missed_task(task: &ScheduledTaskRecord, at: i64) -> (r: MissedTask)
    requires
        in_clock_range(at as int),
    ensures
        r.id@ == task.id@,
        r.cron@ == task.cron@,
        r.prompt@ == task.prompt@,
{
    MissedTask {
        id: task.id.clone(),
        cron: task.cron.clone(),
        prompt: task.prompt.clone(),
        missed_at: local_rfc3339(at),
    }
}

/// Remembers the minute of the last check, so that a task fires at most once
/// a minute however often the clock is read.
pub struct MinuteGate {
    pub last_minute: Option<i64>,
}

impl MinuteGate {
    /// A gate that has seen no minute.
    pub fn new() -> (r: MinuteGate)
        ensures
            r.last_minute is None,
    {
        MinuteGate { last_minute: None }
    }

    /// Whether the clock has entered a new minute (`hour * 60 + minute`): true
    /// the first time a minute is seen, and then the minute is remembered.
    pub fn enter(&mut self, minute: i64) -> (r: bool)
        ensures
            r == (old(self).last_minute != Some(minute)),
            final(self).last_minute == Some(minute),
    {
        let changed = match self.last_minute {
            Some(m) => m != minute,
            None => true,
        };
        self.last_minute = Some(minute);
        changed
    }
}


proof fn lemma_kept_sources(s: Seq<TaskView>, now: int)
    ensures
        forall|j: int| 0 <= j < kept_after_check(s, now).len() ==> exists|k: int| 0 <= k < s.len() && !leaves_table(s[k], now) && #[trigger] kept_after_check(s, now)[j] == after_check(s[k], now),
        forall|k: int| 0 <= k < s.len() && !leaves_table(#[trigger] s[k], now) ==> kept_after_check(s, now).contains(after_check(s[k], now)),
    decreases s.len(),
{
    if s.len() > 0 {
        let d = s.drop_last();
        lemma_kept_sources(d, now);
        let r = kept_after_check(d, now);
        let n = kept_after_check(s, now);
        assert(s[s.len() - 1] == s.last());
        assert forall|j: int| 0 <= j < n.len() implies exists|k: int| 0 <= k < s.len() && !leaves_table(s[k], now) && #[trigger] n[j] == after_check(s[k], now) by {
            if j < r.len() {
                assert(n[j] == r[j]);
                let k = choose|k: int| 0 <= k < d.len() && !leaves_table(d[k], now) && r[j] == after_check(d[k], now);
                assert(s[k] == d[k]);
            } else {
                assert(n[j] == after_check(s[s.len() - 1], now));
            }
        }
        assert forall|k: int| 0 <= k < s.len() && !leaves_table(#[trigger] s[k], now) implies n.contains(after_check(s[k], now)) by {
            if k < d.len() {
                assert(s[k] == d[k]);
                let j = choose|j: int| 0 <= j < r.len() && r[j] == after_check(d[k], now);
                if !leaves_table(s.last(), now) {
                    assert(n[j] == r[j]);
                }
            } else {
                assert(n[n.len() - 1] == after_check(s.last(), now));
            }
        }
    }
}

/// The minute check removes exactly the tasks that leave the table: a task
/// that expired, or a one-shot task that fired, is gone; every other task
/// stays, a fired one with `now` as its last fire.
pub proof fn law_check_removes_exactly_leaving_tasks(s: Seq<TaskView>, now: int, i: int)
    requires
        unique_ids(s),
        0 <= i < s.len(),
    ensures
        leaves_table(s[i], now) ==> !has_id(kept_after_check(s, now), s[i].id),
        !leaves_table(s[i], now) ==> kept_after_check(s, now).contains(after_check(s[i], now)),
        fires_now(s[i], now) && !leaves_table(s[i], now) ==> after_check(s[i], now).last_fired_at == Some(now as i64),
{
    lemma_kept_sources(s, now);
    let n = kept_after_check(s, now);
    if leaves_table(s[i], now) && has_id(n, s[i].id) {
        let j = choose|j: int| 0 <= j < n.len() && n[j].id == s[i].id;
        let k = choose|k: int| 0 <= k < s.len() && !leaves_table(s[k], now) && n[j] == after_check(s[k], now);
        assert(after_check(s[k], now).id == s[k].id);
        assert(k != i);
    }
}

/// Deleting a task just created, whose id was not in the table, gives back
/// the table as it was.
pub proof fn law_delete_undoes_create(s: Seq<TaskView>, t: TaskView)
    requires
        unique_ids(s),
        !has_id(s, t.id),
    ensures
        remove_id(upsert(s, t), t.id) == s,
{
    let n = s.push(t);
    assert(upsert(s, t) == n);
    assert(n[s.len() as int] == t);
    lemma_push_unique(s, t);
    lemma_index_of_id(n, s.len() as int);
    assert(n.remove(s.len() as int) =~= s);
}

proof fn lemma_upsert_all_fresh(base: Seq<TaskView>, ds: Seq<TaskView>)
    requires
        unique_ids(base + ds),
    ensures
        upsert_all(base, ds) == base + ds,
    decreases ds.len(),
{
    if ds.len() > 0 {
        let d = ds.drop_last();
        assert(unique_ids(base + d)) by {
            let a = base + d;
            let b = base + ds;
            assert forall|x: int, y: int| 0 <= x < a.len() && 0 <= y < a.len() && x != y implies a[x].id != a[y].id by {
                assert(a[x] == b[x] && a[y] == b[y]);
            }
        }
        lemma_upsert_all_fresh(base, d);
        let a = base + d;
        let b = base + ds;
        assert(b == a.push(ds.last()));
        assert(!has_id(a, ds.last().id)) by {
            if has_id(a, ds.last().id) {
                let k = choose|k: int| 0 <= k < a.len() && a[k].id == ds.last().id;
                assert(b[k] == a[k]);
                assert(b[b.len() - 1] == ds.last());
            }
        }
    }
}

proof fn lemma_with_persistence_append(a: Seq<TaskView>, b: Seq<TaskView>, p: PersistenceMode)
    ensures
        with_persistence(a + b, p) == with_persistence(a, p) + with_persistence(b, p),
    decreases b.len(),
{
    if b.len() == 0 {
        assert(a + b =~= a);
        assert(with_persistence(a, p) + with_persistence(b, p) =~= with_persistence(a, p));
    } else {
        lemma_with_persistence_append(a, b.drop_last(), p);
        assert((a + b).drop_last() =~= a + b.drop_last());
        assert((a + b).last() == b.last());
        if b.last().persistence == p {
            assert(with_persistence(a, p) + with_persistence(b.drop_last(), p).push(b.last()) =~= (with_persistence(a, p) + with_persistence(b.drop_last(), p)).push(b.last()));
        }
    }
}

proof fn lemma_with_persistence_all(s: Seq<TaskView>, p: PersistenceMode)
    requires
        forall|i: int| 0 <= i < s.len() ==> (#[trigger] s[i]).persistence == p,
    ensures
        with_persistence(s, p) == s,
    decreases s.len(),
{
    if s.len() > 0 {
        lemma_with_persistence_all(s.drop_last(), p);
        assert(s.last() == s[s.len() - 1]);
        assert(s.drop_last().push(s.last()) =~= s);
    }
}

proof fn lemma_with_persistence_none(s: Seq<TaskView>, p: PersistenceMode, q: PersistenceMode)
    requires
        p != q,
        forall|i: int| 0 <= i < s.len() ==> (#[trigger] s[i]).persistence == q,
    ensures
        with_persistence(s, p) == Seq::<TaskView>::empty(),
    decreases s.len(),
{
    if s.len() > 0 {
        lemma_with_persistence_none(s.drop_last(), p, q);
        assert(s.last() == s[s.len() - 1]);
    }
}

/// Saving and loading round-trips: after loading a saved list of durable
/// tasks (no two with one id, and none with the id of a session task), the
/// durable tasks of the table are that list, in its order.
pub proof fn law_load_gives_back_saved(s: Seq<TaskView>, saved: Seq<TaskView>)
    requires
        unique_ids(s),
        unique_ids(saved),
        forall|i: int| 0 <= i < saved.len() ==> (#[trigger] saved[i]).persistence == PersistenceMode::Durable,
        forall|i: int| 0 <= i < saved.len() ==> !has_id(with_persistence(s, PersistenceMode::Session), (#[trigger] saved[i]).id),
    ensures
        with_persistence(
            upsert_all(with_persistence(s, PersistenceMode::Session), saved),
            PersistenceMode::Durable,
        ) == saved,
{
    let base = with_persistence(s, PersistenceMode::Session);
    lemma_with_persistence(s, PersistenceMode::Session);
    let all = base + saved;
    assert(unique_ids(all)) by {
        assert forall|x: int, y: int| 0 <= x < all.len() && 0 <= y < all.len() && x != y implies all[x].id != all[y].id by {
            if x < base.len() && y < base.len() {
                assert(all[x] == base[x] && all[y] == base[y]);
            } else if x >= base.len() && y >= base.len() {
                assert(all[x] == saved[x - base.len()] && all[y] == saved[y - base.len()]);
            } else if x < base.len() {
                assert(all[x] == base[x] && all[y] == saved[y - base.len()]);
                assert(!has_id(base, saved[y - base.len()].id));
            } else {
                assert(all[y] == base[y] && all[x] == saved[x - base.len()]);
                assert(!has_id(base, saved[x - base.len()].id));
            }
        }
    }
    lemma_upsert_all_fresh(base, saved);
    lemma_with_persistence_append(base, saved, PersistenceMode::Durable);
    lemma_with_persistence_none(base, PersistenceMode::Durable, PersistenceMode::Session);
    lemma_with_persistence_all(saved, PersistenceMode::Durable);
    assert(Seq::<TaskView>::empty() + saved =~= saved);
}

/// What a change of the table says, and whether the durable tasks must be
/// written to disk after it.
pub struct CronChange {
    pub message: String,
    pub save: bool,
}

/// The scheduler's state: the tasks (no two with one id), the notifications
/// that fired tasks queued, and the number of the next id.
pub struct SharedCronScheduler {
    tasks: Vec<ScheduledTaskRecord>,
    notifications: Vec<CronNotification>,
    next_id: u64,
}

pub open spec fn note_views(v: Seq<CronNotification>) -> Seq<(Seq<char>, Seq<char>)> {
    v.map_values(|n: CronNotification| (n.task_id@, n.prompt@))
}

impl View for SharedCronScheduler {
    type V = SchedulerView;

    closed spec fn view(&self) -> SchedulerView {
        SchedulerView {
            tasks: task_views(self.tasks@),
            notes: note_views(self.notifications@),
            next_id: self.next_id,
        }
    }
}

proof fn lemma_update_unique(s: Seq<TaskView>, k: int, t: TaskView)
    requires
        unique_ids(s),
        0 <= k < s.len(),
        s[k].id == t.id,
    ensures
        unique_ids(s.update(k, t)),
{
    let n = s.update(k, t);
    assert forall|a: int, b: int| 0 <= a < n.len() && 0 <= b < n.len() && a != b implies n[a].id
        != n[b].id by {
        if a != k && b != k {
            assert(n[a] == s[a] && n[b] == s[b]);
        } else if a == k {
            assert(n[b] == s[b]);
        } else {
            assert(n[a] == s[a]);
        }
    }
}

proof fn lemma_push_unique(s: Seq<TaskView>, t: TaskView)
    requires
        unique_ids(s),
        !has_id(s, t.id),
    ensures
        unique_ids(s.push(t)),
{
    let n = s.push(t);
    assert forall|a: int, b: int| 0 <= a < n.len() && 0 <= b < n.len() && a != b implies n[a].id
        != n[b].id by {
        if a == s.len() {
            assert(n[b] == s[b]);
        } else if b == s.len() {
            assert(n[a] == s[a]);
        } else {
            assert(n[a] == s[a] && n[b] == s[b]);
        }
    }
}

proof fn lemma_index_of_id(s: Seq<TaskView>, k: int)
    requires
        unique_ids(s),
        0 <= k < s.len(),
    ensures
        has_id(s, s[k].id),
        index_of_id(s, s[k].id) == k,
{
    let c = index_of_id(s, s[k].id);
    assert(0 <= c < s.len() && s[c].id == s[k].id);
}

proof fn lemma_upsert_unique(s: Seq<TaskView>, t: TaskView)
    requires
        unique_ids(s),
    ensures
        unique_ids(upsert(s, t)),
        has_id(upsert(s, t), t.id),
{
    if has_id(s, t.id) {
        let k = index_of_id(s, t.id);
        lemma_update_unique(s, k, t);
        assert(s.update(k, t)[k] == t);
    } else {
        lemma_push_unique(s, t);
        assert(s.push(t)[s.len() as int] == t);
    }
}

proof fn lemma_remove_unique(s: Seq<TaskView>, k: int)
    requires
        unique_ids(s),
        0 <= k < s.len(),
    ensures
        unique_ids(s.remove(k)),
        forall|j: int| 0 <= j < s.remove(k).len() ==> (#[trigger] s.remove(k)[j]).id != s[k].id,
{
    let n = s.remove(k);
    assert forall|a: int| 0 <= a < n.len() implies n[a] == (if a < k { s[a] } else { s[a + 1] }) by {}
    assert forall|a: int, b: int| 0 <= a < n.len() && 0 <= b < n.len() && a != b implies n[a].id
        != n[b].id by {
        let ia = if a < k { a } else { a + 1 };
        let ib = if b < k { b } else { b + 1 };
        assert(n[a] == s[ia] && n[b] == s[ib]);
    }
    assert forall|j: int| 0 <= j < n.len() implies (#[trigger] n[j]).id != s[k].id by {
        let ij = if j < k { j } else { j + 1 };
        assert(n[j] == s[ij]);
    }
}

proof fn lemma_with_persistence(s: Seq<TaskView>, p: PersistenceMode)
    ensures
        forall|j: int| 0 <= j < with_persistence(s, p).len() ==> has_id(s, (#[trigger] with_persistence(s, p)[j]).id),
        forall|j: int| 0 <= j < with_persistence(s, p).len() ==> (#[trigger] with_persistence(s, p)[j]).persistence == p,
        unique_ids(s) ==> unique_ids(with_persistence(s, p)),
    decreases s.len(),
{
    if s.len() > 0 {
        let d = s.drop_last();
        lemma_with_persistence(d, p);
        let r = with_persistence(d, p);
        assert forall|j: int| 0 <= j < r.len() implies has_id(s, (#[trigger] r[j]).id) by {
            let k = choose|k: int| 0 <= k < d.len() && d[k].id == r[j].id;
            assert(s[k] == d[k]);
        }
        assert(s[s.len() - 1] == s.last());
        if unique_ids(s) {
            assert(unique_ids(d)) by {
                assert forall|a: int, b: int| 0 <= a < d.len() && 0 <= b < d.len() && a != b implies d[a].id
                    != d[b].id by {
                    assert(d[a] == s[a] && d[b] == s[b]);
                }
            }
            if s.last().persistence == p {
                assert(!has_id(r, s.last().id)) by {
                    if has_id(r, s.last().id) {
                        let j = choose|j: int| 0 <= j < r.len() && r[j].id == s.last().id;
                        let k = choose|k: int| 0 <= k < d.len() && d[k].id == r[j].id;
                        assert(s[k] == d[k]);
                    }
                }
                lemma_push_unique(r, s.last());
            }
        }
        if s.last().persistence == p {
            let n = r.push(s.last());
            assert forall|j: int| 0 <= j < n.len() implies has_id(s, (#[trigger] n[j]).id) by {
                if j < r.len() {
                    assert(n[j] == r[j]);
                } else {
                    assert(n[j] == s[s.len() - 1]);
                }
            }
            assert forall|j: int| 0 <= j < n.len() implies (#[trigger] n[j]).persistence == p by {
                if j < r.len() {
                    assert(n[j] == r[j]);
                }
            }
        }
    }
}

proof fn lemma_upsert_all_unique(s: Seq<TaskView>, ts: Seq<TaskView>)
    requires
        unique_ids(s),
    ensures
        unique_ids(upsert_all(s, ts)),
    decreases ts.len(),
{
    if ts.len() > 0 {
        lemma_upsert_all_unique(s, ts.drop_last());
        lemma_upsert_unique(upsert_all(s, ts.drop_last()), ts.last());
    }
}

impl SharedCronScheduler {
    #[verifier::type_invariant]
    spec fn inv(self) -> bool {
        unique_ids(task_views(self.tasks@))
    }

    /// An empty table whose first id is made of `first_id` (the clock's
    /// milliseconds when the harness starts).
    pub fn new(first_id: u64) -> (r: SharedCronScheduler)
        ensures
            r@.tasks == Seq::<TaskView>::empty(),
            r@.notes == Seq::<(Seq<char>, Seq<char>)>::empty(),
            r@.next_id == first_id,
    {
        let r = SharedCronScheduler { tasks: Vec::new(), notifications: Vec::new(), next_id: first_id };
        assert(task_views(r.tasks@) =~= Seq::<TaskView>::empty());
        assert(note_views(r.notifications@) =~= Seq::<(Seq<char>, Seq<char>)>::empty());
        r
    }

    /// The number of tasks.
    pub fn task_count(&self) -> (r: usize)
        ensures
            r == self@.tasks.len(),
    {
        self.tasks.len()
    }

    /// The index of the task with id `id`.
    fn position(&self, id: &str) -> (r: Option<usize>)
        ensures
            match r {
                Some(i) => has_id(self@.tasks, id@) && index_of_id(self@.tasks, id@) == i as int && i
                    < self@.tasks.len(),
                None => !has_id(self@.tasks, id@),
            },
    {
        proof {
            use_type_invariant(self);
        }
        let ghost s = self@.tasks;
        let mut i: usize = 0;
        while i < self.tasks.len()
            invariant
                i <= self.tasks.len(),
                s == task_views(self.tasks@),
                unique_ids(s),
                forall|k: int| 0 <= k < i ==> s[k].id != id@,
            decreases self.tasks.len() - i,
        {
            if str_eq(self.tasks[i].id.as_str(), id) {
                proof {
                    lemma_index_of_id(s, i as int);
                }
                return Some(i);
            }
            i = i + 1;
        }
        None
    }

    /// Stores `task` under its id, replacing a task of the same id.
    fn store(&mut self, task: ScheduledTaskRecord)
        ensures
            final(self)@.tasks == upsert(old(self)@.tasks, task@),
            final(self)@.notes == old(self)@.notes,
            final(self)@.next_id == old(self)@.next_id,
    {
        proof {
            use_type_invariant(&*self);
        }
        let ghost s = self@.tasks;
        let ghost t = task@;
        proof {
            lemma_upsert_unique(s, t);
        }
        match self.position(task.id.as_str()) {
            Some(i) => {
                let mut tasks: Vec<ScheduledTaskRecord> = Vec::new();
                std::mem::swap(&mut tasks, &mut self.tasks);
                tasks.set(i, task);
                assert(task_views(tasks@) =~= s.update(i as int, t));
                self.tasks = tasks;
            },
            None => {
                let mut tasks: Vec<ScheduledTaskRecord> = Vec::new();
                std::mem::swap(&mut tasks, &mut self.tasks);
                tasks.push(task);
                assert(task_views(tasks@) =~= s.push(t));
                self.tasks = tasks;
            },
        }
    }

    /// Creates a task from a cron expression and a prompt. The expression is
    /// checked and trimmed; the id is the next number in eight or more
    /// hexadecimal digits; recurring tasks get a jitter. `now` is the
    /// creation time. The change asks for a save where the task is durable.
    pub fn create(
        &mut self,
        cron_expr: &str,
        prompt: &str,
        recurring: bool,
        durable: bool,
        now: i64,
    ) -> (r: Result<CronChange, String>)
        ensures
            r is Ok <==> cron_valid(trim_spec(cron_expr@)),
            match r {
                Ok(c) => {
                    let t = new_task(old(self)@.next_id, cron_expr@, prompt@, recurring, durable, now);
                    &&& final(self)@.tasks == upsert(old(self)@.tasks, t)
                    &&& final(self)@.next_id == next_number(old(self)@.next_id)
                    &&& final(self)@.notes == old(self)@.notes
                    &&& c.message@ == created_message(t)
                    &&& c.save == durable
                },
                Err(e) => {
                    &&& final(self)@ == old(self)@
                    &&& e@ == "invalid cron expression: "@ + trim_spec(cron_expr@)
                },
            },
    {
        if let Err(e) = validate_schedule(cron_expr) {
            return Err(e);
        }
        let n = self.next_id;
        let id = hex08_of(n);
        let mode = ScheduleMode::from_recurring_flag(recurring);
        let persistence = PersistenceMode::from_durable_flag(durable);
        let jitter: u64 = if recurring {
            compute_jitter(cron_expr)
        } else {
            0
        };
        let task = ScheduledTaskRecord {
            id,
            cron: trim(cron_expr),
            prompt: owned(prompt),
            mode,
            persistence,
            created_at: now,
            last_fired_at: None,
            jitter_offset_minutes: jitter,
        };
        let message = concat(
            concat(
                concat(
                    concat(
                        concat(
                            concat(concat(owned("Created task "), task.id.as_str()), " ("),
                            mode.name().as_str(),
                        ),
                        ", ",
                    ),
                    persistence.name().as_str(),
                ),
                "): cron=",
            ),
            task.cron.as_str(),
        );
        self.store(task);
        proof {
            use_type_invariant(&*self);
        }
        self.next_id = if n == u64::MAX {
            0
        } else {
            n + 1
        };
        Ok(CronChange { message, save: durable })
    }

    /// Deletes the task with id `task_id`. The change asks for a save where
    /// the deleted task was durable.
    pub fn delete(&mut self, task_id: &str) -> (r: CronChange)
        ensures
            final(self)@.tasks == remove_id(old(self)@.tasks, task_id@),
            final(self)@.notes == old(self)@.notes,
            final(self)@.next_id == old(self)@.next_id,
            r.message@ == delete_message(old(self)@.tasks, task_id@),
            r.save == (has_id(old(self)@.tasks, task_id@) && old(self)@.tasks[index_of_id(
                old(self)@.tasks,
                task_id@,
            )].persistence == PersistenceMode::Durable),
    {
        proof {
            use_type_invariant(&*self);
        }
        let ghost s = self@.tasks;
        match self.position(task_id) {
            Some(i) => {
                let mut tasks: Vec<ScheduledTaskRecord> = Vec::new();
                std::mem::swap(&mut tasks, &mut self.tasks);
                let removed = tasks.remove(i);
                proof {
                    assert(task_views(tasks@) =~= s.remove(i as int));
                    lemma_remove_unique(s, i as int);
                }
                self.tasks = tasks;
                CronChange {
                    message: concat(owned("Deleted task "), task_id),
                    save: removed.persistence.is_durable(),
                }
            },
            None => CronChange {
                message: concat(concat(owned("Task "), task_id), " not found"),
                save: false,
            },
        }
    }

    /// Whether every task can be checked at `now`: its jitter keeps the
    /// instant it is checked at in range.
    pub fn can_check(&self, now: i64) -> (r: bool)
        requires
            sane_time(now as int),
        ensures
            r == check_times_in_range(self@.tasks, now as int),
    {
        let ghost s = self@.tasks;
        let mut i: usize = 0;
        while i < self.tasks.len()
            invariant
                i <= self.tasks.len(),
                s == task_views(self.tasks@),
                sane_time(now as int),
                forall|k: int| 0 <= k < i ==> in_clock_range(now - 60 * (#[trigger] s[k]).jitter_offset_minutes),
            decreases self.tasks.len() - i,
        {
            let j = self.tasks[i].jitter_offset_minutes;
            if (now as i128) - 60 * (j as i128) < -8_050_000_000_000 {
                assert(!in_clock_range(now - 60 * s[i as int].jitter_offset_minutes));
                return false;
            }
            i = i + 1;
        }
        true
    }

    /// The check that runs once a minute at the clock reading `now`: expired
    /// recurring tasks leave the table; each task whose schedule fires queues
    /// a notification and remembers `now`, and a fired one-shot task leaves.
    pub fn check_tasks(&mut self, now: i64) -> (r: CheckReport)
        requires
            sane_time(now as int),
            check_times_in_range(old(self)@.tasks, now as int),
        ensures
            final(self)@.tasks == kept_after_check(old(self)@.tasks, now as int),
            final(self)@.notes == old(self)@.notes + fired_notes(old(self)@.tasks, now as int),
            final(self)@.next_id == old(self)@.next_id,
            views(r.fired@) == fired_ids(old(self)@.tasks, now as int),
            views(r.expired@) == expired_ids(old(self)@.tasks, now as int),
            views(r.completed@) == completed_ids(old(self)@.tasks, now as int),
            r.save == check_saves(old(self)@.tasks, now as int),
    {
        proof {
            use_type_invariant(&*self);
        }
        let ghost s = self@.tasks;
        let ghost notes0 = self@.notes;
        let mut tasks: Vec<ScheduledTaskRecord> = Vec::new();
        std::mem::swap(&mut tasks, &mut self.tasks);
        proof {
            use_type_invariant(&*self);
        }
        let mut notes: Vec<CronNotification> = Vec::new();
        std::mem::swap(&mut notes, &mut self.notifications);
        let mut kept: Vec<ScheduledTaskRecord> = Vec::new();
        let mut fired: Vec<String> = Vec::new();
        let mut expired: Vec<String> = Vec::new();
        let mut completed: Vec<String> = Vec::new();
        let mut save = false;
        let mut i: usize = 0;
        assert(s.take(0) =~= Seq::<TaskView>::empty());
        assert(note_views(notes@) =~= notes0 + fired_notes(s.take(0), now as int));
        while i < tasks.len()
            invariant
                i <= tasks.len(),
                s == task_views(tasks@),
                sane_time(now as int),
                check_times_in_range(s, now as int),
                task_views(kept@) == kept_after_check(s.take(i as int), now as int),
                note_views(notes@) == notes0 + fired_notes(s.take(i as int), now as int),
                views(fired@) == fired_ids(s.take(i as int), now as int),
                views(expired@) == expired_ids(s.take(i as int), now as int),
                views(completed@) == completed_ids(s.take(i as int), now as int),
                save == check_saves(s.take(i as int), now as int),
            decreases tasks.len() - i,
        {
            let ghost p = s.take(i as int);
            let ghost q = s.take(i + 1);
            assert(q.drop_last() =~= p);
            assert(q.last() == s[i as int]);
            let t = &tasks[i];
            assert(in_clock_range(now - 60 * s[i as int].jitter_offset_minutes));
            let (gone, fires) = check_task(t, now);
            if gone {
                expired.push(t.id.clone());
                save = true;
                assert(views(expired@) =~= expired_ids(p, now as int).push(s[i as int].id));
                assert(views(fired@) =~= fired_ids(q, now as int));
                assert(views(completed@) =~= completed_ids(q, now as int));
                assert(note_views(notes@) =~= notes0 + fired_notes(q, now as int));
            } else if fires {
                let ghost before = note_views(notes@);
                notes.push(CronNotification { task_id: t.id.clone(), prompt: t.prompt.clone() });
                assert(note_views(notes@) =~= before.push((s[i as int].id, s[i as int].prompt)));
                assert(note_views(notes@) =~= notes0 + fired_notes(q, now as int));
                fired.push(t.id.clone());
                assert(views(fired@) =~= fired_ids(p, now as int).push(s[i as int].id));
                if t.persistence.is_durable() {
                    save = true;
                }
                if t.mode == ScheduleMode::OneShot {
                    completed.push(t.id.clone());
                    save = true;
                    assert(views(completed@) =~= completed_ids(p, now as int).push(s[i as int].id));
                } else {
                    let mut u = t.clone();
                    u.last_fired_at = Some(now);
                    kept.push(u);
                    assert(task_views(kept@) =~= kept_after_check(p, now as int).push(after_check(s[i as int], now as int)));
                    assert(views(completed@) =~= completed_ids(q, now as int));
                }
                assert(views(expired@) =~= expired_ids(q, now as int));
            } else {
                kept.push(t.clone());
                assert(task_views(kept@) =~= kept_after_check(p, now as int).push(s[i as int]));
                assert(views(fired@) =~= fired_ids(q, now as int));
                assert(views(expired@) =~= expired_ids(q, now as int));
                assert(views(completed@) =~= completed_ids(q, now as int));
                assert(note_views(notes@) =~= notes0 + fired_notes(q, now as int));
            }
            i = i + 1;
        }
        assert(s.take(i as int) =~= s);
        proof {
            lemma_kept_after_check(s, now as int);
        }
        self.tasks = kept;
        self.notifications = notes;
        CheckReport { fired, expired, completed, save }
    }

    /// The tasks ordered by creation time, oldest first.
    pub fn list_tasks(&self) -> (r: Vec<ScheduledTaskRecord>)
        ensures
            task_views(r@) == sort_by_created(self@.tasks),
    {
        let ghost s = self@.tasks;
        let mut r: Vec<ScheduledTaskRecord> = Vec::new();
        let mut i: usize = 0;
        while i < self.tasks.len()
            invariant
                i <= self.tasks.len(),
                s == task_views(self.tasks@),
                task_views(r@) == sort_by_created(s.take(i as int)),
            decreases self.tasks.len() - i,
        {
            let ghost sorted = task_views(r@);
            let t = &self.tasks[i];
            let mut k: usize = r.len();
            while k > 0 && r[k - 1].created_at > t.created_at
                invariant
                    k <= r.len(),
                    sorted == task_views(r@),
                    forall|j: int| k <= j < r.len() ==> (#[trigger] r@[j]).created_at > t.created_at,
                decreases k,
            {
                k = k - 1;
            }
            proof {
                assert forall|j: int| k <= j < sorted.len() implies (#[trigger] sorted[j]).created_at > t@.created_at by {
                    assert(sorted[j] == r@[j]@);
                }
                if k > 0 {
                    assert(sorted[k - 1] == r@[k - 1]@);
                }
                lemma_insert_by_created_at(sorted, t@, k as int);
                assert(s.take(i + 1).drop_last() =~= s.take(i as int));
                assert(s.take(i + 1).last() == s[i as int]);
            }
            r.insert(k, t.clone());
            assert(task_views(r@) =~= sorted.take(k as int).push(t@) + sorted.skip(k as int));
            i = i + 1;
        }
        assert(s.take(i as int) =~= s);
        r
    }

    /// The tasks that missed a fire while the harness was down, at the clock
    /// reading `now`, in table order; each names when, in local time.
    pub fn detect_missed_tasks(&self, now: i64) -> (r: Vec<MissedTask>)
        requires
            sane_time(now as int),
        ensures
            missed_views(r@) == missed_report(self@.tasks, now as int),
    {
        let ghost s = self@.tasks;
        let mut r: Vec<MissedTask> = Vec::new();
        let mut i: usize = 0;
        while i < self.tasks.len()
            invariant
                i <= self.tasks.len(),
                s == task_views(self.tasks@),
                sane_time(now as int),
                missed_views(r@) == missed_report(s.take(i as int), now as int),
            decreases self.tasks.len() - i,
        {
            assert(s.take(i + 1).drop_last() =~= s.take(i as int));
            assert(s.take(i + 1).last() == s[i as int]);
            let t = &self.tasks[i];
            match missed_fire_time(t, now) {
                Some(at) => {
                    proof {
                        let l = t@.last_fired_at->0;
                        lemma_first_fire_range(trim_spec(t@.cron), l as int, if now < l + 86400 { now as int } else { l + 86400 }, 1);
                    }
                    let ghost before = missed_views(r@);
                    r.push(missed_task(t, at));
                    assert(missed_views(r@) =~= before.push((s[i as int].id, s[i as int].cron, s[i as int].prompt)));
                },
                None => {},
            }
            i = i + 1;
        }
        assert(s.take(i as int) =~= s);
        r
    }

    /// The durable tasks, in table order: what is written to disk.
    pub fn durable_tasks(&self) -> (r: Vec<ScheduledTaskRecord>)
        ensures
            task_views(r@) == with_persistence(self@.tasks, PersistenceMode::Durable),
    {
        let ghost s = self@.tasks;
        let mut r: Vec<ScheduledTaskRecord> = Vec::new();
        let mut i: usize = 0;
        while i < self.tasks.len()
            invariant
                i <= self.tasks.len(),
                s == task_views(self.tasks@),
                task_views(r@) == with_persistence(s.take(i as int), PersistenceMode::Durable),
            decreases self.tasks.len() - i,
        {
            assert(s.take(i + 1).drop_last() =~= s.take(i as int));
            assert(s.take(i + 1).last() == s[i as int]);
            if self.tasks[i].persistence.is_durable() {
                r.push(self.tasks[i].clone());
                assert(task_views(r@) =~= with_persistence(s.take(i as int), PersistenceMode::Durable).push(s[i as int]));
            }
            i = i + 1;
        }
        assert(s.take(i as int) =~= s);
        r
    }

    /// Replaces the durable tasks with `loaded` (read back from disk): the
    /// session tasks stay, then each loaded task is stored under its id.
    pub fn load_durable(&mut self, loaded: Vec<ScheduledTaskRecord>)
        ensures
            final(self)@.tasks == upsert_all(
                with_persistence(old(self)@.tasks, PersistenceMode::Session),
                task_views(loaded@),
            ),
            final(self)@.notes == old(self)@.notes,
            final(self)@.next_id == old(self)@.next_id,
    {
        proof {
            use_type_invariant(&*self);
        }
        let ghost s = self@.tasks;
        let mut kept: Vec<ScheduledTaskRecord> = Vec::new();
        let mut i: usize = 0;
        while i < self.tasks.len()
            invariant
                i <= self.tasks.len(),
                s == task_views(self.tasks@),
                task_views(kept@) == with_persistence(s.take(i as int), PersistenceMode::Session),
            decreases self.tasks.len() - i,
        {
            assert(s.take(i + 1).drop_last() =~= s.take(i as int));
            assert(s.take(i + 1).last() == s[i as int]);
            if !self.tasks[i].persistence.is_durable() {
                kept.push(self.tasks[i].clone());
                assert(task_views(kept@) =~= with_persistence(s.take(i as int), PersistenceMode::Session).push(s[i as int]));
            }
            i = i + 1;
        }
        assert(s.take(i as int) =~= s);
        proof {
            lemma_with_persistence(s, PersistenceMode::Session);
        }
        self.tasks = kept;
        let ghost base = self@.tasks;
        let ghost lv = task_views(loaded@);
        let mut j: usize = 0;
        while j < loaded.len()
            invariant
                j <= loaded.len(),
                lv == task_views(loaded@),
                self@.tasks == upsert_all(base, lv.take(j as int)),
                self@.notes == old(self)@.notes,
                self@.next_id == old(self)@.next_id,
            decreases loaded.len() - j,
        {
            assert(lv.take(j + 1).drop_last() =~= lv.take(j as int));
            assert(lv.take(j + 1).last() == lv[j as int]);
            self.store(loaded[j].clone());
            j = j + 1;
        }
        assert(lv.take(j as int) =~= lv);
    }

    /// Takes the queued notifications, oldest first, and empties the queue.
    pub fn drain_notifications(&mut self) -> (r: Vec<CronNotification>)
        ensures
            note_views(r@) == old(self)@.notes,
            final(self)@.notes == Seq::<(Seq<char>, Seq<char>)>::empty(),
            final(self)@.tasks == old(self)@.tasks,
            final(self)@.next_id == old(self)@.next_id,
    {
        proof {
            use_type_invariant(&*self);
        }
        let mut r: Vec<CronNotification> = Vec::new();
        std::mem::swap(&mut r, &mut self.notifications);
        assert(note_views(self.notifications@) =~= Seq::<(Seq<char>, Seq<char>)>::empty());
        r
    }

    /// Queues the notification that `/test` sends.
    pub fn enqueue_test_notification(&mut self)
        ensures
            final(self)@.notes == old(self)@.notes.push(("test-0000"@, "This is a test notification."@)),
            final(self)@.tasks == old(self)@.tasks,
            final(self)@.next_id == old(self)@.next_id,
    {
        proof {
            use_type_invariant(&*self);
        }
        let mut notes: Vec<CronNotification> = Vec::new();
        std::mem::swap(&mut notes, &mut self.notifications);
        let ghost before = note_views(notes@);
        notes.push(CronNotification::test_notification());
        assert(note_views(notes@) =~= before.push(("test-0000"@, "This is a test notification."@)));
        self.notifications = notes;
    }
}

} // verus!
