//! Background commands: the table of tasks that run while the agent goes on,
//! the shape of a finished command's output, and the notices the loop reads.
use vstd::prelude::*;

use crate::text::{
    char_count, collapse_whitespace, concat, ends_with_slash, hex08, hex08_of, join, join_spec,
    owned, squeeze_ws, str_eq, take_chars, take_chars_spec, trim, trim_spec, views,
};

verus! {

/// A running task is reported stalled after this many whole seconds.
pub const STALL_THRESHOLD_S: u64 = 45;

/// Output beyond this many characters is cut.
pub const OUTPUT_LIMIT: usize = 50_000;

/// A preview holds at most this many characters.
pub const PREVIEW_LIMIT: usize = 500;

/// Nanoseconds in a second.
pub const NANOS_PER_SECOND: i128 = 1_000_000_000;

/// Where a background task stands.
#[derive(Clone, Copy, Debug, PartialEq, Eq, Structural)]
pub enum BackgroundTaskStatus {
    Running,
    Completed,
    Timeout,
    Error,
}

pub open spec fn status_name(s: BackgroundTaskStatus) -> Seq<char> {
    match s {
        BackgroundTaskStatus::Running => "running"@,
        BackgroundTaskStatus::Completed => "completed"@,
        BackgroundTaskStatus::Timeout => "timeout"@,
        BackgroundTaskStatus::Error => "error"@,
    }
}

impl BackgroundTaskStatus {
    /// The snake-case name of the status.
    pub fn name(&self) -> (r: String)
        ensures
            r@ == status_name(*self),
    {
        match self {
            BackgroundTaskStatus::Running => owned("running"),
            BackgroundTaskStatus::Completed => owned("completed"),
            BackgroundTaskStatus::Timeout => owned("timeout"),
            BackgroundTaskStatus::Error => owned("error"),
        }
    }
}

/// `text` cut to its first `limit` characters.
pub fn truncate_chars(text: &str, limit: usize) -> (r: String)
    ensures
        r@ == take_chars_spec(text@, limit as nat),
{
    take_chars(text, limit)
}

/// `text` cut to its first `limit` characters.
pub fn truncate_chars_owned(text: String, limit: usize) -> (r: String)
    ensures
        r@ == take_chars_spec(text@, limit as nat),
{
    take_chars(text.as_str(), limit)
}

/// The preview of an output: its words joined by single spaces, cut to
/// `PREVIEW_LIMIT` characters.
pub open spec fn preview_spec(output: Seq<char>) -> Seq<char> {
    take_chars_spec(squeeze_ws(output).0, PREVIEW_LIMIT as nat)
}

/// The preview of an output.
pub fn preview(output: &str) -> (r: String)
    ensures
        r@ == preview_spec(output@),
{
    let compact = collapse_whitespace(output);
    truncate_chars(compact.as_str(), PREVIEW_LIMIT)
}

/// How a command ended and what it printed.
pub struct CommandOutcome {
    pub status: BackgroundTaskStatus,
    pub output: String,
}

/// The output of a command that finished: stdout then stderr, trimmed,
/// `(no output)` when nothing is left, cut to `OUTPUT_LIMIT` characters.
pub open spec fn finished_output(combined: Seq<char>) -> Seq<char> {
    let text = trim_spec(combined);
    take_chars_spec(
        if text.len() == 0 {
            "(no output)"@
        } else {
            text
        },
        OUTPUT_LIMIT as nat,
    )
}

impl CommandOutcome {
    /// A command that could not run or be waited for; `output` says why.
    pub fn error(output: String) -> (r: CommandOutcome)
        ensures
            r.status == BackgroundTaskStatus::Error,
            r.output@ == output@,
    {
        CommandOutcome { status: BackgroundTaskStatus::Error, output }
    }

    /// A command that finished; `combined` is its stdout then its stderr.
    pub fn finished(combined: &str) -> (r: CommandOutcome)
        ensures
            r.status == BackgroundTaskStatus::Completed,
            r.output@ == finished_output(combined@),
    {
        let text = trim(combined);
        let shown = if char_count(text.as_str()) == 0 {
            owned("(no output)")
        } else {
            text
        };
        CommandOutcome {
            status: BackgroundTaskStatus::Completed,
            output: truncate_chars_owned(shown, OUTPUT_LIMIT),
        }
    }

    /// A command that ran out of time.
    pub fn timeout() -> (r: CommandOutcome)
        ensures
            r.status == BackgroundTaskStatus::Timeout,
            r.output@ == "Error: Timeout (300s)"@,
    {
        CommandOutcome { status: BackgroundTaskStatus::Timeout, output: owned("Error: Timeout (300s)") }
    }
}

/// One background task. Times are nanoseconds since 1970 (UTC).
pub struct BackgroundTaskRecord {
    pub id: String,
    pub status: BackgroundTaskStatus,
    pub result: Option<String>,
    pub command: String,
    pub started_at: i128,
    pub finished_at: Option<i128>,
    pub result_preview: String,
    pub output_file: String,
}

pub struct RecordView {
    pub id: Seq<char>,
    pub status: BackgroundTaskStatus,
    pub result: Option<Seq<char>>,
    pub command: Seq<char>,
    pub started_at: i128,
    pub finished_at: Option<i128>,
    pub result_preview: Seq<char>,
    pub output_file: Seq<char>,
}

pub open spec fn opt_view(o: Option<String>) -> Option<Seq<char>> {
    match o {
        Some(s) => Some(s@),
        None => None,
    }
}

impl View for BackgroundTaskRecord {
    type V = RecordView;

    open spec fn view(&self) -> RecordView {
        RecordView {
            id: self.id@,
            status: self.status,
            result: opt_view(self.result),
            command: self.command@,
            started_at: self.started_at,
            finished_at: self.finished_at,
            result_preview: self.result_preview@,
            output_file: self.output_file@,
        }
    }
}

impl Clone for BackgroundTaskRecord {
    fn clone(&self) -> (r: Self)
        ensures
            r@ == self@,
    {
        BackgroundTaskRecord {
            id: self.id.clone(),
            status: self.status,
            result: match &self.result {
                Some(s) => Some(s.clone()),
                None => None,
            },
            command: self.command.clone(),
            started_at: self.started_at,
            finished_at: self.finished_at,
            result_preview: self.result_preview.clone(),
            output_file: self.output_file.clone(),
        }
    }
}

pub open spec fn record_views(v: Seq<BackgroundTaskRecord>) -> Seq<RecordView> {
    v.map_values(|r: BackgroundTaskRecord| r@)
}

/// The record's line in the listing:
/// `ID: [STATUS] COMMAND -> PREVIEW`, the command cut to sixty characters and
/// `(running)` in place of an empty preview.
pub open spec fn record_line(r: RecordView) -> Seq<char> {
    r.id + ": ["@ + status_name(r.status) + "] "@ + take_chars_spec(r.command, 60) + " -> "@ + (
    if r.result_preview.len() == 0 {
        "(running)"@
    } else {
        r.result_preview
    })
}

impl BackgroundTaskRecord {
    /// The record's line in the listing.
    pub fn describe(&self) -> (r: String)
        ensures
            r@ == record_line(self@),
    {
        let head = concat(concat(concat(owned(self.id.as_str()), ": ["), self.status.name().as_str()), "] ");
        let mid = concat(concat(head, truncate_chars(self.command.as_str(), 60).as_str()), " -> ");
        if char_count(self.result_preview.as_str()) == 0 {
            concat(mid, "(running)")
        } else {
            concat(mid, self.result_preview.as_str())
        }
    }
}

/// What the loop is told when a background task ends.
pub struct BackgroundNotification {
    pub task_id: String,
    pub status: BackgroundTaskStatus,
    pub command: String,
    pub preview: String,
    pub output_file: String,
}

pub open spec fn notification_text(n: BackgroundNotification) -> Seq<char> {
    "[bg:"@ + n.task_id@ + "] "@ + status_name(n.status) + ": "@ + n.preview@ + " (command="@
        + n.command@ + ", output_file="@ + n.output_file@ + ")"@
}

impl BackgroundNotification {
    /// `[bg:ID] STATUS: PREVIEW (command=COMMAND, output_file=FILE)`.
    pub fn describe(&self) -> (r: String)
        ensures
            r@ == notification_text(*self),
    {
        let a = concat(concat(concat(owned("[bg:"), self.task_id.as_str()), "] "), self.status.name().as_str());
        let b = concat(concat(concat(concat(a, ": "), self.preview.as_str()), " (command="), self.command.as_str());
        concat(concat(concat(b, ", output_file="), self.output_file.as_str()), ")")
    }
}

/// `file` joined under the directory `dir` as a path (`Path::join`): an empty
/// directory adds nothing, and a separator is added unless `dir` ends in one.
pub open spec fn join_path_spec(dir: Seq<char>, file: Seq<char>) -> Seq<char> {
    if dir.len() == 0 {
        file
    } else if dir.last() == '/' {
        dir + file
    } else {
        dir + "/"@ + file
    }
}

/// `file` joined under the directory `dir`.
pub fn join_path(dir: &str, file: &str) -> (r: String)
    ensures
        r@ == join_path_spec(dir@, file@),
{
    if char_count(dir) == 0 {
        owned(file)
    } else if ends_with_slash(dir) {
        concat(owned(dir), file)
    } else {
        concat(concat(owned(dir), "/"), file)
    }
}

/// The output file of task `id` in the directory `dir`: `DIR/ID.log`.
pub open spec fn output_file_spec(dir: Seq<char>, id: Seq<char>) -> Seq<char> {
    join_path_spec(dir, id + ".log"@)
}

// ---------------------------------------------------------------------------
// The table
// ---------------------------------------------------------------------------

/// The view of the manager: its tasks in table order, the notifications not
/// yet drained, and the number the next id is made of.
pub struct ManagerView {
    pub tasks: Seq<RecordView>,
    pub notes: Seq<Seq<char>>,
    pub next_id: u64,
}

/// No two tasks share an id.
pub open spec fn unique_record_ids(s: Seq<RecordView>) -> bool {
    forall|i: int, j: int| 0 <= i < s.len() && 0 <= j < s.len() && i != j ==> s[i].id != s[j].id
}

/// The index of the task with id `id`.
pub open spec fn find_record(s: Seq<RecordView>, id: Seq<char>) -> Option<int> {
    if exists|k: int| 0 <= k < s.len() && s[k].id == id {
        Some(choose|k: int| 0 <= k < s.len() && s[k].id == id)
    } else {
        None
    }
}

/// `s` after storing `r` under its id (`HashMap::insert`).
pub open spec fn store_record(s: Seq<RecordView>, r: RecordView) -> Seq<RecordView> {
    match find_record(s, r.id) {
        Some(k) => s.update(k, r),
        None => s.push(r),
    }
}

/// The number that follows `n` (`fetch_add(1)` wraps).
pub open spec fn next_seed(n: u64) -> u64 {
    if n == u64::MAX {
        0
    } else {
        (n + 1) as u64
    }
}

/// The record of a task that has just started.
pub open spec fn started_record(id: Seq<char>, command: Seq<char>, started_at: i128, dir: Seq<char>) -> RecordView {
    RecordView {
        id: id,
        status: BackgroundTaskStatus::Running,
        result: None,
        command: command,
        started_at: started_at,
        finished_at: None,
        result_preview: Seq::empty(),
        output_file: output_file_spec(dir, id),
    }
}

/// `Background task ID started: COMMAND (output_file=FILE)`, the command cut
/// to eighty characters.
pub open spec fn started_message(r: RecordView) -> Seq<char> {
    "Background task "@ + r.id + " started: "@ + take_chars_spec(r.command, 80) + " (output_file="@
        + r.output_file + ")"@
}

/// The record of a task that has ended with `outcome`, at `finished_at`.
pub open spec fn finished_record(
    s: Seq<RecordView>,
    id: Seq<char>,
    command: Seq<char>,
    status: BackgroundTaskStatus,
    output: Seq<char>,
    finished_at: i128,
    dir: Seq<char>,
) -> RecordView {
    RecordView {
        id: id,
        status: status,
        result: Some(output),
        command: command,
        started_at: match find_record(s, id) {
            Some(k) => s[k].started_at,
            None => finished_at,
        },
        finished_at: Some(finished_at),
        result_preview: preview_spec(output),
        output_file: output_file_spec(dir, id),
    }
}

/// The notice of a task that ended.
pub open spec fn finished_notice(
    id: Seq<char>,
    command: Seq<char>,
    status: BackgroundTaskStatus,
    output: Seq<char>,
    dir: Seq<char>,
) -> Seq<char> {
    "[bg:"@ + id + "] "@ + status_name(status) + ": "@ + preview_spec(output) + " (command="@
        + take_chars_spec(command, 80) + ", output_file="@ + output_file_spec(dir, id) + ")"@
}

/// A running task is stalled once more than `STALL_THRESHOLD_S` whole seconds
/// have passed since it started. (The code truncates the seconds and this
/// floors them; for a negative time both are at most zero.)
pub open spec fn is_stalled(r: RecordView, now: int) -> bool {
    r.status == BackgroundTaskStatus::Running && (now - r.started_at) / (NANOS_PER_SECOND as int)
        > STALL_THRESHOLD_S
}

/// The ids of the stalled tasks, in table order.
pub open spec fn stalled_ids(s: Seq<RecordView>, now: int) -> Seq<Seq<char>>
    decreases s.len(),
{
    if s.len() == 0 {
        Seq::empty()
    } else if is_stalled(s.last(), now) {
        stalled_ids(s.drop_last(), now).push(s.last().id)
    } else {
        stalled_ids(s.drop_last(), now)
    }
}

/// `s` (ordered by start time) with `r` inserted after every task started no
/// later than it.
pub open spec fn insert_by_start(s: Seq<RecordView>, r: RecordView) -> Seq<RecordView>
    decreases s.len(),
{
    if s.len() == 0 {
        seq![r]
    } else if s.last().started_at <= r.started_at {
        s.push(r)
    } else {
        insert_by_start(s.drop_last(), r).push(s.last())
    }
}

/// `s` ordered by start time; tasks started at the same instant keep their
/// table order.
pub open spec fn sort_by_start(s: Seq<RecordView>) -> Seq<RecordView>
    decreases s.len(),
{
    if s.len() == 0 {
        s
    } else {
        insert_by_start(sort_by_start(s.drop_last()), s.last())
    }
}

/// The listing of all tasks, by start time.
pub open spec fn listing_spec(s: Seq<RecordView>) -> Seq<char> {
    if s.len() == 0 {
        "No background tasks."@
    } else {
        join_spec(sort_by_start(s).map_values(|r: RecordView| record_line(r)), "\n"@)
    }
}

/// What the loop is told of ended and stalled tasks, if anything.
pub open spec fn results_message_spec(notes: Seq<Seq<char>>, stalled: Seq<Seq<char>>) -> Option<Seq<char>> {
    if notes.len() == 0 && stalled.len() == 0 {
        None
    } else {
        let lines = if stalled.len() == 0 {
            notes
        } else {
            notes.push("stalled_tasks="@ + join_spec(stalled, ", "@))
        };
        Some("<background-results>\n"@ + join_spec(lines, "\n"@) + "\n</background-results>"@)
    }
}


/// Ordered by start time.
pub open spec fn start_sorted(s: Seq<RecordView>) -> bool {
    forall|i: int, j: int| 0 <= i <= j < s.len() ==> s[i].started_at <= s[j].started_at
}

proof fn lemma_insert_by_start(s: Seq<RecordView>, r: RecordView)
    requires
        start_sorted(s),
    ensures
        start_sorted(insert_by_start(s, r)),
        insert_by_start(s, r).to_multiset() == s.to_multiset().insert(r),
    decreases s.len(),
{
    broadcast use vstd::seq_lib::to_multiset_build;
    if s.len() == 0 {
        assert(seq![r] =~= s.push(r));
    } else if s.last().started_at <= r.started_at {
        let n = s.push(r);
        assert forall|i: int, j: int| 0 <= i <= j < n.len() implies n[i].started_at <= n[j].started_at by {
            if j == s.len() {
                if i < s.len() {
                    assert(s[i].started_at <= s[s.len() - 1].started_at);
                }
            } else {
                assert(n[i] == s[i] && n[j] == s[j]);
            }
        }
    } else {
        let d = s.drop_last();
        assert(start_sorted(d)) by {
            assert forall|i: int, j: int| 0 <= i <= j < d.len() implies d[i].started_at <= d[j].started_at by {
                assert(d[i] == s[i] && d[j] == s[j]);
            }
        }
        lemma_insert_by_start(d, r);
        let x = insert_by_start(d, r);
        assert(s =~= d.push(s.last()));
        assert(x.push(s.last()).to_multiset() =~= s.to_multiset().insert(r));
        let n = x.push(s.last());
        assert forall|y: RecordView| x.to_multiset().contains(y) implies y.started_at <= s.last().started_at by {
            if y != r {
                assert(d.to_multiset().contains(y));
                vstd::seq_lib::to_multiset_contains(d, y);
                let k = choose|k: int| 0 <= k < d.len() && d[k] == y;
                assert(s[k] == d[k]);
                assert(s[k].started_at <= s[s.len() - 1].started_at);
            }
        }
        assert forall|i: int, j: int| 0 <= i <= j < n.len() implies n[i].started_at <= n[j].started_at by {
            if j == x.len() {
                if i < x.len() {
                    vstd::seq_lib::to_multiset_contains(x, x[i]);
                    assert(x.to_multiset().contains(x[i]));
                }
            } else {
                assert(n[i] == x[i] && n[j] == x[j]);
            }
        }
    }
}

/// Only running tasks are reported stalled: each reported id belongs to a
/// task that is still running and started more than 45 seconds before `now`.
pub proof fn law_only_running_tasks_stall(s: Seq<RecordView>, now: int, j: int)
    requires
        0 <= j < stalled_ids(s, now).len(),
    ensures
        exists|k: int|
            0 <= k < s.len() && #[trigger] s[k].id == stalled_ids(s, now)[j] && s[k].status == BackgroundTaskStatus::Running
                && now - s[k].started_at >= 46 * NANOS_PER_SECOND,
    decreases s.len(),
{
    let prev = stalled_ids(s.drop_last(), now);
    let last = s.len() - 1;
    if j < prev.len() {
        assert(stalled_ids(s, now)[j] == prev[j]);
        law_only_running_tasks_stall(s.drop_last(), now, j);
        let k = choose|k: int|
            0 <= k < s.drop_last().len() && #[trigger] s.drop_last()[k].id == prev[j] && s.drop_last()[k].status
                == BackgroundTaskStatus::Running && now - s.drop_last()[k].started_at >= 46 * NANOS_PER_SECOND;
        assert(s[k] == s.drop_last()[k]);
    } else {
        assert(s.last() == s[last]);
        let r = s[last];
        assert(is_stalled(r, now));
        let age: int = now - r.started_at;
        assert(age >= 46 * 1_000_000_000int) by (nonlinear_arith)
            requires
                age / 1_000_000_000int > 45,
        ;
        assert(s[last].id == stalled_ids(s, now)[j]);
    }
}

/// The listing orders the tasks by start time and lists each task as often
/// as the table holds it.
pub proof fn law_listing_by_start(s: Seq<RecordView>)
    ensures
        start_sorted(sort_by_start(s)),
        sort_by_start(s).to_multiset() == s.to_multiset(),
    decreases s.len(),
{
    broadcast use vstd::seq_lib::to_multiset_build;
    if s.len() > 0 {
        law_listing_by_start(s.drop_last());
        lemma_insert_by_start(sort_by_start(s.drop_last()), s.last());
        assert(s =~= s.drop_last().push(s.last()));
    }
}

/// What is stored is what a later lookup of its id finds: after a task is
/// recorded (started or finished), checking that id gives that record.
pub proof fn law_stored_record_is_found(s: Seq<RecordView>, r: RecordView)
    requires
        unique_record_ids(s),
    ensures
        find_record(store_record(s, r), r.id) matches Some(k) && store_record(s, r)[k] == r,
{
    lemma_store_record(s, r);
    let n = store_record(s, r);
    let k = match find_record(s, r.id) {
        Some(k) => k,
        None => s.len() as int,
    };
    assert(0 <= k < n.len() && n[k] == r);
    let c = choose|c: int| 0 <= c < n.len() && n[c].id == r.id;
    assert(c == k) by {
        if c != k {
            assert(n[c].id != n[k].id);
        }
    }
}

/// What `check` answers: one task's record, or the listing of all.
pub enum CheckAnswer {
    Record(BackgroundTaskRecord),
    Listing(String),
}

/// The background tasks: their records (no two with one id), the notices of
/// ended tasks not yet read, and the number of the next id.
pub struct SharedBackgroundManager {
    tasks: Vec<BackgroundTaskRecord>,
    notifications: Vec<BackgroundNotification>,
    next_id: u64,
}

impl View for SharedBackgroundManager {
    type V = ManagerView;

    closed spec fn view(&self) -> ManagerView {
        ManagerView {
            tasks: record_views(self.tasks@),
            notes: self.notifications@.map_values(|n: BackgroundNotification| notification_text(n)),
            next_id: self.next_id,
        }
    }
}

proof fn lemma_store_record(s: Seq<RecordView>, r: RecordView)
    requires
        unique_record_ids(s),
    ensures
        unique_record_ids(store_record(s, r)),
{
    let n = store_record(s, r);
    match find_record(s, r.id) {
        Some(k) => {
            assert forall|a: int, b: int| 0 <= a < n.len() && 0 <= b < n.len() && a != b implies n[a].id
                != n[b].id by {
                if a != k && b != k {
                    assert(n[a] == s[a] && n[b] == s[b]);
                } else if a == k {
                    assert(n[b] == s[b]);
                } else {
                    assert(n[a] == s[a]);
                }
            }
        },
        None => {
            assert forall|a: int, b: int| 0 <= a < n.len() && 0 <= b < n.len() && a != b implies n[a].id
                != n[b].id by {
                if a == s.len() {
                    assert(n[b] == s[b]);
                } else if b == s.len() {
                    assert(n[a] == s[a]);
                } else {
                    assert(n[a] == s[a] && n[b] == s[b]);
                }
            }
        },
    }
}

proof fn lemma_insert_by_start_at(s: Seq<RecordView>, r: RecordView, k: int)
    requires
        0 <= k <= s.len(),
        forall|j: int| k <= j < s.len() ==> (#[trigger] s[j]).started_at > r.started_at,
        k == 0 || s[k - 1].started_at <= r.started_at,
    ensures
        insert_by_start(s, r) == s.take(k).push(r) + s.skip(k),
    decreases s.len(),
{
    if s.len() == 0 {
        assert(s.take(k).push(r) + s.skip(k) =~= seq![r]);
    } else if k == s.len() {
        assert(s.take(k) =~= s);
        assert(s.take(k).push(r) + s.skip(k) =~= s.push(r));
    } else {
        assert(s.last() == s[s.len() - 1]);
        let d = s.drop_last();
        assert forall|j: int| k <= j < d.len() implies (#[trigger] d[j]).started_at > r.started_at by {
            assert(d[j] == s[j]);
        }
        if k > 0 {
            assert(d[k - 1] == s[k - 1]);
        }
        lemma_insert_by_start_at(d, r, k);
        assert(d.take(k) =~= s.take(k));
        assert((d.take(k).push(r) + d.skip(k)).push(s.last()) =~= s.take(k).push(r) + s.skip(k));
    }
}

impl SharedBackgroundManager {
    #[verifier::type_invariant]
    spec fn inv(self) -> bool {
        unique_record_ids(record_views(self.tasks@))
    }

    /// An empty manager whose first id is made of `seed` (the clock's
    /// milliseconds when the harness starts).
    pub fn new(seed: u64) -> (r: SharedBackgroundManager)
        ensures
            r@.tasks == Seq::<RecordView>::empty(),
            r@.notes == Seq::<Seq<char>>::empty(),
            r@.next_id == seed,
    {
        let r = SharedBackgroundManager { tasks: Vec::new(), notifications: Vec::new(), next_id: seed };
        assert(record_views(r.tasks@) =~= Seq::<RecordView>::empty());
        assert(r.notifications@.map_values(|n: BackgroundNotification| notification_text(n)) =~= Seq::<Seq<char>>::empty());
        r
    }

    /// The index of the task with id `id`.
    fn position(&self, id: &str) -> (r: Option<usize>)
        ensures
            match r {
                Some(i) => find_record(self@.tasks, id@) == Some(i as int) && i < self@.tasks.len(),
                None => find_record(self@.tasks, id@) is None,
            },
    {
        proof {
            use_type_invariant(self);
        }
        let ghost s = self@.tasks;
        let mut i: usize = 0;
        while i < self.tasks.len()
            invariant
                i <= self.tasks.len(),
                s == record_views(self.tasks@),
                unique_record_ids(s),
                forall|k: int| 0 <= k < i ==> s[k].id != id@,
            decreases self.tasks.len() - i,
        {
            if str_eq(self.tasks[i].id.as_str(), id) {
                let ghost c = choose|k: int| 0 <= k < s.len() && s[k].id == id@;
                assert(s[i as int].id == id@);
                assert(c == i);
                return Some(i);
            }
            i = i + 1;
        }
        None
    }

    /// Stores `record` under its id.
    fn store(&mut self, record: BackgroundTaskRecord)
        ensures
            final(self)@.tasks == store_record(old(self)@.tasks, record@),
            final(self)@.notes == old(self)@.notes,
            final(self)@.next_id == old(self)@.next_id,
    {
        proof {
            use_type_invariant(&*self);
            lemma_store_record(self@.tasks, record@);
        }
        let ghost s = self@.tasks;
        let ghost rv = record@;
        match self.position(record.id.as_str()) {
            Some(i) => {
                let mut tasks: Vec<BackgroundTaskRecord> = Vec::new();
                std::mem::swap(&mut tasks, &mut self.tasks);
                tasks.set(i, record);
                assert(record_views(tasks@) =~= s.update(i as int, rv));
                self.tasks = tasks;
            },
            None => {
                let mut tasks: Vec<BackgroundTaskRecord> = Vec::new();
                std::mem::swap(&mut tasks, &mut self.tasks);
                tasks.push(record);
                assert(record_views(tasks@) =~= s.push(rv));
                self.tasks = tasks;
            },
        }
    }

    /// Registers a command that starts now: its id is the next number in
    /// eight or more hexadecimal digits, and its output goes to `ID.log` in
    /// `output_dir`. Gives the new record, to be saved, and the reply.
    pub fn run(&mut self, command: &str, started_at: i128, output_dir: &str) -> (r: (
        BackgroundTaskRecord,
        String,
    ))
        ensures
            r.0@ == started_record(hex08(old(self)@.next_id as nat), command@, started_at, output_dir@),
            r.1@ == started_message(r.0@),
            final(self)@.tasks == store_record(old(self)@.tasks, r.0@),
            final(self)@.notes == old(self)@.notes,
            final(self)@.next_id == next_seed(old(self)@.next_id),
    {
        let n = self.next_id;
        let id = hex08_of(n);
        let file = concat(owned(id.as_str()), ".log");
        let output_file = join_path(output_dir, file.as_str());
        let record = BackgroundTaskRecord {
            id,
            status: BackgroundTaskStatus::Running,
            result: None,
            command: owned(command),
            started_at,
            finished_at: None,
            result_preview: String::new(),
            output_file,
        };
        assert(record@.result_preview =~= Seq::<char>::empty());
        let message = concat(
            concat(
                concat(
                    concat(concat(owned("Background task "), record.id.as_str()), " started: "),
                    truncate_chars(record.command.as_str(), 80).as_str(),
                ),
                " (output_file=",
            ),
            record.output_file.as_str(),
        );
        let message = concat(message, ")");
        self.store(record.clone());
        proof {
            use_type_invariant(&*self);
        }
        self.next_id = if n == u64::MAX {
            0
        } else {
            n + 1
        };
        (record, message)
    }

    /// Records that task `id`, running `command`, ended with `outcome` at
    /// `finished_at`, and queues its notice. Gives the record, to be saved.
    pub fn finish(
        &mut self,
        id: &str,
        command: &str,
        outcome: CommandOutcome,
        finished_at: i128,
        output_dir: &str,
    ) -> (r: BackgroundTaskRecord)
        ensures
            r@ == finished_record(old(self)@.tasks, id@, command@, outcome.status, outcome.output@, finished_at, output_dir@),
            final(self)@.tasks == store_record(old(self)@.tasks, r@),
            final(self)@.notes == old(self)@.notes.push(finished_notice(id@, command@, outcome.status, outcome.output@, output_dir@)),
            final(self)@.next_id == old(self)@.next_id,
    {
        let file = concat(owned(id), ".log");
        let output_file = join_path(output_dir, file.as_str());
        let shown = preview(outcome.output.as_str());
        let started_at = match self.position(id) {
            Some(i) => self.tasks[i].started_at,
            None => finished_at,
        };
        let record = BackgroundTaskRecord {
            id: owned(id),
            status: outcome.status,
            result: Some(outcome.output),
            command: owned(command),
            started_at,
            finished_at: Some(finished_at),
            result_preview: shown.clone(),
            output_file: output_file.clone(),
        };
        let note = BackgroundNotification {
            task_id: owned(id),
            status: outcome.status,
            command: truncate_chars(command, 80),
            preview: shown,
            output_file,
        };
        self.store(record.clone());
        proof {
            use_type_invariant(&*self);
        }
        let mut notes: Vec<BackgroundNotification> = Vec::new();
        std::mem::swap(&mut notes, &mut self.notifications);
        let ghost before = notes@.map_values(|n: BackgroundNotification| notification_text(n));
        notes.push(note);
        assert(notes@.map_values(|n: BackgroundNotification| notification_text(n)) =~= before.push(
            finished_notice(id@, command@, outcome.status, record@.result->0, output_dir@),
        ));
        self.notifications = notes;
        record
    }

    /// One task's record, or the listing of all tasks by start time.
    pub fn check(&self, task_id: Option<&str>) -> (r: Result<CheckAnswer, String>)
        ensures
            match task_id {
                Some(id) => match find_record(self@.tasks, id@) {
                    Some(k) => r matches Ok(CheckAnswer::Record(rec)) && rec@ == self@.tasks[k],
                    None => r matches Err(e) && e@ == "Unknown task "@ + id@,
                },
                None => r matches Ok(CheckAnswer::Listing(text)) && text@ == listing_spec(self@.tasks),
            },
    {
        match task_id {
            Some(id) => match self.position(id) {
                Some(i) => Ok(CheckAnswer::Record(self.tasks[i].clone())),
                None => Err(concat(owned("Unknown task "), id)),
            },
            None => {
                if self.tasks.len() == 0 {
                    return Ok(CheckAnswer::Listing(owned("No background tasks.")));
                }
                let sorted = self.sorted_by_start();
                let mut lines: Vec<String> = Vec::new();
                let mut i: usize = 0;
                let ghost ss = sort_by_start(self@.tasks);
                while i < sorted.len()
                    invariant
                        i <= sorted.len(),
                        record_views(sorted@) == ss,
                        views(lines@) == ss.take(i as int).map_values(|r: RecordView| record_line(r)),
                    decreases sorted.len() - i,
                {
                    let line = sorted[i].describe();
                    assert(sorted@[i as int]@ == ss[i as int]);
                    let ghost before = views(lines@);
                    lines.push(line);
                    assert(views(lines@) =~= before.push(record_line(ss[i as int])));
                    assert(views(lines@) =~= ss.take(i + 1).map_values(|r: RecordView| record_line(r)));
                    i = i + 1;
                }
                assert(ss.take(i as int) =~= ss);
                Ok(CheckAnswer::Listing(join(&lines, "\n")))
            },
        }
    }

    /// The records ordered by start time.
    fn sorted_by_start(&self) -> (r: Vec<BackgroundTaskRecord>)
        ensures
            record_views(r@) == sort_by_start(self@.tasks),
    {
        let ghost s = self@.tasks;
        let mut r: Vec<BackgroundTaskRecord> = Vec::new();
        let mut i: usize = 0;
        while i < self.tasks.len()
            invariant
                i <= self.tasks.len(),
                s == record_views(self.tasks@),
                record_views(r@) == sort_by_start(s.take(i as int)),
            decreases self.tasks.len() - i,
        {
            let ghost sorted = record_views(r@);
            let t = &self.tasks[i];
            let mut k: usize = r.len();
            while k > 0 && r[k - 1].started_at > t.started_at
                invariant
                    k <= r.len(),
                    sorted == record_views(r@),
                    forall|j: int| k <= j < r.len() ==> (#[trigger] r@[j]).started_at > t.started_at,
                decreases k,
            {
                k = k - 1;
            }
            proof {
                assert forall|j: int| k <= j < sorted.len() implies (#[trigger] sorted[j]).started_at > t@.started_at by {
                    assert(sorted[j] == r@[j]@);
                }
                if k > 0 {
                    assert(sorted[k - 1] == r@[k - 1]@);
                }
                lemma_insert_by_start_at(sorted, t@, k as int);
                assert(s.take(i + 1).drop_last() =~= s.take(i as int));
                assert(s.take(i + 1).last() == s[i as int]);
            }
            r.insert(k, t.clone());
            assert(record_views(r@) =~= sorted.take(k as int).push(t@) + sorted.skip(k as int));
            i = i + 1;
        }
        assert(s.take(i as int) =~= s);
        r
    }

    /// Takes the queued notices, oldest first, and empties the queue.
    pub fn drain_notifications(&mut self) -> (r: Vec<BackgroundNotification>)
        ensures
            r@.map_values(|n: BackgroundNotification| notification_text(n)) == old(self)@.notes,
            final(self)@.notes == Seq::<Seq<char>>::empty(),
            final(self)@.tasks == old(self)@.tasks,
            final(self)@.next_id == old(self)@.next_id,
    {
        proof {
            use_type_invariant(&*self);
        }
        let mut r: Vec<BackgroundNotification> = Vec::new();
        std::mem::swap(&mut r, &mut self.notifications);
        assert(self.notifications@.map_values(|n: BackgroundNotification| notification_text(n)) =~= Seq::<Seq<char>>::empty());
        r
    }

    /// The ids of the running tasks that started more than
    /// `STALL_THRESHOLD_S` whole seconds before `now` (nanoseconds).
    pub fn detect_stalled(&self, now: i128) -> (r: Vec<String>)
        requires
            -1_000_000_000_000_000_000_000 <= now <= 1_000_000_000_000_000_000_000,
        ensures
            views(r@) == stalled_ids(self@.tasks, now as int),
    {
        let ghost s = self@.tasks;
        let mut r: Vec<String> = Vec::new();
        let mut i: usize = 0;
        while i < self.tasks.len()
            invariant
                i <= self.tasks.len(),
                s == record_views(self.tasks@),
                -1_000_000_000_000_000_000_000 <= now <= 1_000_000_000_000_000_000_000,
                views(r@) == stalled_ids(s.take(i as int), now as int),
            decreases self.tasks.len() - i,
        {
            assert(s.take(i + 1).drop_last() =~= s.take(i as int));
            assert(s.take(i + 1).last() == s[i as int]);
            let t = &self.tasks[i];
            if t.status == BackgroundTaskStatus::Running && t.started_at <= now - 46 * NANOS_PER_SECOND {
                let ghost age: int = now - t.started_at;
                assert(age / 1_000_000_000int > 45) by (nonlinear_arith)
                    requires
                        age >= 46 * 1_000_000_000,
                ;
                r.push(t.id.clone());
                assert(views(r@) =~= stalled_ids(s.take(i as int), now as int).push(s[i as int].id));
            } else {
                assert(!is_stalled(s[i as int], now as int)) by {
                    if t.status == BackgroundTaskStatus::Running {
                        let age: int = now - t.started_at;
                        assert(age / 1_000_000_000int <= 45) by (nonlinear_arith)
                            requires
                                age < 46 * 1_000_000_000,
                        ;
                    }
                }
            }
            i = i + 1;
        }
        assert(s.take(i as int) =~= s);
        r
    }

    /// What the loop is told, at `now`, of the tasks that ended since it last
    /// asked and of the stalled ones; the notices are taken from the queue.
    pub fn background_results_message(&mut self, now: i128) -> (r: Option<String>)
        requires
            -1_000_000_000_000_000_000_000 <= now <= 1_000_000_000_000_000_000_000,
        ensures
            r matches Some(m) ==> results_message_spec(old(self)@.notes, stalled_ids(old(self)@.tasks, now as int)) == Some(m@),
            r is None ==> results_message_spec(old(self)@.notes, stalled_ids(old(self)@.tasks, now as int)) is None,
            final(self)@.notes == Seq::<Seq<char>>::empty(),
            final(self)@.tasks == old(self)@.tasks,
            final(self)@.next_id == old(self)@.next_id,
    {
        let notes = self.drain_notifications();
        let stalled = self.detect_stalled(now);
        if notes.len() == 0 && stalled.len() == 0 {
            return None;
        }
        let ghost nv = notes@.map_values(|n: BackgroundNotification| notification_text(n));
        let mut lines: Vec<String> = Vec::new();
        let mut i: usize = 0;
        while i < notes.len()
            invariant
                i <= notes.len(),
                nv == notes@.map_values(|n: BackgroundNotification| notification_text(n)),
                views(lines@) == nv.take(i as int),
            decreases notes.len() - i,
        {
            let line = notes[i].describe();
            assert(nv[i as int] == notification_text(notes@[i as int]));
            let ghost before = views(lines@);
            lines.push(line);
            assert(views(lines@) =~= before.push(nv[i as int]));
            assert(views(lines@) =~= nv.take(i + 1));
            i = i + 1;
        }
        assert(nv.take(i as int) =~= nv);
        if stalled.len() > 0 {
            let ghost before = views(lines@);
            lines.push(concat(owned("stalled_tasks="), join(&stalled, ", ").as_str()));
            assert(views(lines@) =~= before.push("stalled_tasks="@ + join_spec(views(stalled@), ", "@)));
        }
        let body = join(&lines, "\n");
        Some(concat(concat(owned("<background-results>\n"), body.as_str()), "\n</background-results>"))
    }
}

} // verus!
