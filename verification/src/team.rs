//! Agent teams: the roster of teammates and its states, the inboxes that
//! carry messages between them, and the request protocols (shutdown and plan
//! approval) with their records.
use vstd::prelude::*;

use crate::background::{join_path, join_path_spec};
use crate::text::{
    chars_of, concat, decimal, hex08, hex08_of, hex_value, lemma_hex_value_hex08, join, join_spec, owned, str_eq, string_of,
    trim_bounds, trim_spec, usize_to_decimal, views,
};

verus! {

/// The team's directory, under the working directory.
pub const TEAM_DIR_NAME: &'static str = ".team";

// ---------------------------------------------------------------------------
// Kinds and states
// ---------------------------------------------------------------------------

/// What a message in an inbox is.
#[derive(Clone, Copy, Debug, PartialEq, Eq, Structural)]
pub enum MessageType {
    Message,
    Broadcast,
    ShutdownRequest,
    ShutdownResponse,
    PlanApproval,
    PlanApprovalResponse,
}

pub open spec fn message_type_name(t: MessageType) -> Seq<char> {
    match t {
        MessageType::Message => "message"@,
        MessageType::Broadcast => "broadcast"@,
        MessageType::ShutdownRequest => "shutdown_request"@,
        MessageType::ShutdownResponse => "shutdown_response"@,
        MessageType::PlanApproval => "plan_approval"@,
        MessageType::PlanApprovalResponse => "plan_approval_response"@,
    }
}

impl MessageType {
    /// The type of the snake-case name `s`, if it names one.
    pub fn parse(s: &str) -> (r: Option<MessageType>)
        ensures
            match r {
                Some(t) => message_type_name(t) == s@,
                None => forall|t: MessageType| message_type_name(t) != s@,
            },
    {
        if str_eq(s, "message") {
            Some(MessageType::Message)
        } else if str_eq(s, "broadcast") {
            Some(MessageType::Broadcast)
        } else if str_eq(s, "shutdown_request") {
            Some(MessageType::ShutdownRequest)
        } else if str_eq(s, "shutdown_response") {
            Some(MessageType::ShutdownResponse)
        } else if str_eq(s, "plan_approval") {
            Some(MessageType::PlanApproval)
        } else if str_eq(s, "plan_approval_response") {
            Some(MessageType::PlanApprovalResponse)
        } else {
            None
        }
    }

    /// The snake-case name of the type.
    pub fn name(&self) -> (r: String)
        ensures
            r@ == message_type_name(*self),
    {
        match self {
            MessageType::Message => owned("message"),
            MessageType::Broadcast => owned("broadcast"),
            MessageType::ShutdownRequest => owned("shutdown_request"),
            MessageType::ShutdownResponse => owned("shutdown_response"),
            MessageType::PlanApproval => owned("plan_approval"),
            MessageType::PlanApprovalResponse => owned("plan_approval_response"),
        }
    }
}

/// What a teammate is doing.
#[derive(Clone, Copy, Debug, PartialEq, Eq, Structural)]
pub enum TeammateStatus {
    Idle,
    Working,
    Shutdown,
}

pub open spec fn teammate_status_name(s: TeammateStatus) -> Seq<char> {
    match s {
        TeammateStatus::Idle => "idle"@,
        TeammateStatus::Working => "working"@,
        TeammateStatus::Shutdown => "shutdown"@,
    }
}

impl TeammateStatus {
    /// The snake-case name of the status.
    pub fn name(&self) -> (r: String)
        ensures
            r@ == teammate_status_name(*self),
    {
        match self {
            TeammateStatus::Idle => owned("idle"),
            TeammateStatus::Working => owned("working"),
            TeammateStatus::Shutdown => owned("shutdown"),
        }
    }
}

// ---------------------------------------------------------------------------
// The roster
// ---------------------------------------------------------------------------

/// One teammate.
pub struct TeamMember {
    pub name: String,
    pub role: String,
    pub status: TeammateStatus,
}

pub struct MemberView {
    pub name: Seq<char>,
    pub role: Seq<char>,
    pub status: TeammateStatus,
}

impl View for TeamMember {
    type V = MemberView;

    open spec fn view(&self) -> MemberView {
        MemberView { name: self.name@, role: self.role@, status: self.status }
    }
}

impl Clone for TeamMember {
    fn clone(&self) -> (r: Self)
        ensures
            r@ == self@,
    {
        TeamMember { name: self.name.clone(), role: self.role.clone(), status: self.status }
    }
}

pub open spec fn member_views(v: Seq<TeamMember>) -> Seq<MemberView> {
    v.map_values(|m: TeamMember| m@)
}

/// The team: its name and its members in the order they joined.
pub struct TeamConfig {
    pub team_name: String,
    pub members: Vec<TeamMember>,
}

/// The first member called `name` from index `k` on.
pub open spec fn find_member_from(ms: Seq<MemberView>, name: Seq<char>, k: int) -> Option<int>
    decreases ms.len() - k,
{
    if k < 0 || k >= ms.len() {
        None
    } else if ms[k].name == name {
        Some(k)
    } else {
        find_member_from(ms, name, k + 1)
    }
}

/// The first member called `name`.
pub open spec fn find_member(ms: Seq<MemberView>, name: Seq<char>) -> Option<int> {
    find_member_from(ms, name, 0)
}

proof fn lemma_find_member_from(ms: Seq<MemberView>, name: Seq<char>, k: int)
    requires
        0 <= k,
    ensures
        match find_member_from(ms, name, k) {
            Some(j) => k <= j < ms.len() && ms[j].name == name && forall|l: int| k <= l < j ==> ms[l].name != name,
            None => forall|l: int| k <= l < ms.len() ==> ms[l].name != name,
        },
    decreases ms.len() - k,
{
    if k < ms.len() && ms[k].name != name {
        lemma_find_member_from(ms, name, k + 1);
    }
}

proof fn lemma_find_member_first(ms: Seq<MemberView>, name: Seq<char>, k: int, j: int)
    requires
        0 <= k <= j < ms.len(),
        ms[j].name == name,
        forall|l: int| k <= l < j ==> ms[l].name != name,
    ensures
        find_member_from(ms, name, k) == Some(j),
    decreases j - k,
{
    if k < j {
        lemma_find_member_first(ms, name, k + 1, j);
    }
}

/// A teammate that is idle or shut down can be given work.
pub open spec fn available(s: TeammateStatus) -> bool {
    s == TeammateStatus::Idle || s == TeammateStatus::Shutdown
}

/// The members after `name` is put to work as `role`, where that is allowed:
/// the first member of that name takes the role and starts working, or a new
/// working member joins last.
pub open spec fn spawned_members(ms: Seq<MemberView>, name: Seq<char>, role: Seq<char>) -> Seq<MemberView> {
    match find_member(ms, name) {
        Some(k) => if available(ms[k].status) {
            ms.update(k, MemberView { name: name, role: role, status: TeammateStatus::Working })
        } else {
            ms
        },
        None => ms.push(MemberView { name: name, role: role, status: TeammateStatus::Working }),
    }
}

/// Whether putting `name` to work is refused: the member is busy.
pub open spec fn spawn_refused(ms: Seq<MemberView>, name: Seq<char>) -> bool {
    match find_member(ms, name) {
        Some(k) => !available(ms[k].status),
        None => false,
    }
}

/// The reply to a request to put `name` to work as `role`.
pub open spec fn spawn_reply(ms: Seq<MemberView>, name: Seq<char>, role: Seq<char>) -> Seq<char> {
    if spawn_refused(ms, name) {
        "Error: '"@ + name + "' is currently "@ + teammate_status_name(ms[find_member(ms, name)->0].status)
    } else {
        "Spawned '"@ + name + "' (role: "@ + role + ")"@
    }
}

/// The status of a member whose loop ended: idle, unless it had shut down and
/// the loop failed.
pub open spec fn finished_status(s: TeammateStatus, success: bool) -> TeammateStatus {
    if success || s != TeammateStatus::Shutdown {
        TeammateStatus::Idle
    } else {
        s
    }
}

/// The status of a member whose loop ended: under the request protocols,
/// shut down after `flag` (a shutdown was approved) or idle; otherwise as
/// `finished_status` says for success `flag`.
pub open spec fn status_after(s: TeammateStatus, flag: bool, protocol: bool) -> TeammateStatus {
    if protocol {
        if flag {
            TeammateStatus::Shutdown
        } else {
            TeammateStatus::Idle
        }
    } else {
        finished_status(s, flag)
    }
}

/// The line of one member in the listing.
pub open spec fn member_line(m: MemberView) -> Seq<char> {
    "  "@ + m.name + " ("@ + m.role + "): "@ + teammate_status_name(m.status)
}

/// The listing of the team.
pub open spec fn team_listing(team_name: Seq<char>, ms: Seq<MemberView>) -> Seq<char> {
    if ms.len() == 0 {
        "No teammates."@
    } else {
        join_spec(seq!["Team: "@ + team_name] + ms.map_values(|m: MemberView| member_line(m)), "\n"@)
    }
}

/// What a request to put a teammate to work gives: whether its loop is to
/// start, and the reply.
pub struct SpawnOutcome {
    pub started: bool,
    pub reply: String,
}

impl TeamConfig {
    /// The team of a harness that has no saved configuration: `default`, with
    /// no members.
    pub fn default_config() -> (r: TeamConfig)
        ensures
            r.team_name@ == "default"@,
            r.members@.len() == 0,
    {
        TeamConfig { team_name: owned("default"), members: Vec::new() }
    }

    /// The index of the first member called `name`.
    fn position(&self, name: &str) -> (r: Option<usize>)
        ensures
            match r {
                Some(i) => find_member(member_views(self.members@), name@) == Some(i as int) && i < self.members.len(),
                None => find_member(member_views(self.members@), name@) is None,
            },
    {
        let ghost ms = member_views(self.members@);
        let mut i: usize = 0;
        while i < self.members.len()
            invariant
                i <= self.members.len(),
                ms == member_views(self.members@),
                forall|k: int| 0 <= k < i ==> ms[k].name != name@,
            decreases self.members.len() - i,
        {
            if str_eq(self.members[i].name.as_str(), name) {
                proof {
                    lemma_find_member_first(ms, name@, 0, i as int);
                }
                return Some(i);
            }
            i = i + 1;
        }
        proof {
            lemma_find_member_from(ms, name@, 0);
            if find_member(ms, name@) is Some {
                let j = find_member(ms, name@)->0;
                assert(ms[j].name == name@);
            }
        }
        None
    }

    /// Puts `name` to work as `role`: refused while that member is working;
    /// otherwise the member (new or idle or shut down) is working now.
    pub fn spawn_member(&mut self, name: &str, role: &str) -> (r: SpawnOutcome)
        ensures
            member_views(final(self).members@) == spawned_members(member_views(old(self).members@), name@, role@),
            final(self).team_name@ == old(self).team_name@,
            r.started == !spawn_refused(member_views(old(self).members@), name@),
            r.reply@ == spawn_reply(member_views(old(self).members@), name@, role@),
    {
        let ghost ms = member_views(self.members@);
        let new_member = TeamMember { name: owned(name), role: owned(role), status: TeammateStatus::Working };
        match self.position(name) {
            Some(i) => {
                let status = self.members[i].status;
                if !(status == TeammateStatus::Idle || status == TeammateStatus::Shutdown) {
                    let reply = concat(concat(concat(owned("Error: '"), name), "' is currently "), status.name().as_str());
                    return SpawnOutcome { started: false, reply };
                }
                self.members.set(i, new_member);
                assert(member_views(self.members@) =~= ms.update(i as int, MemberView { name: name@, role: role@, status: TeammateStatus::Working }));
            },
            None => {
                self.members.push(new_member);
                assert(member_views(self.members@) =~= ms.push(MemberView { name: name@, role: role@, status: TeammateStatus::Working }));
            },
        }
        let reply = concat(concat(concat(concat(owned("Spawned '"), name), "' (role: "), role), ")");
        SpawnOutcome { started: true, reply }
    }

    /// Records that the loop of `name` ended, successfully or not. Gives
    /// whether the member was found (and the configuration must be saved).
    pub fn finish_member(&mut self, name: &str, success: bool) -> (r: bool)
        ensures
            r == (find_member(member_views(old(self).members@), name@) is Some),
            match find_member(member_views(old(self).members@), name@) {
                Some(k) => member_views(final(self).members@) == member_views(old(self).members@).update(
                    k,
                    MemberView { status: finished_status(old(self).members@[k].status, success), ..old(self).members@[k]@ },
                ),
                None => member_views(final(self).members@) == member_views(old(self).members@),
            },
            final(self).team_name@ == old(self).team_name@,
    {
        self.set_status_of(name, success, false)
    }

    /// Records that the loop of `name` ended under the request protocols: it
    /// is shut down where a shutdown was approved, idle otherwise. Gives
    /// whether the member was found.
    pub fn finish_member_with_protocol(&mut self, name: &str, should_shutdown: bool) -> (r: bool)
        ensures
            r == (find_member(member_views(old(self).members@), name@) is Some),
            match find_member(member_views(old(self).members@), name@) {
                Some(k) => member_views(final(self).members@) == member_views(old(self).members@).update(
                    k,
                    MemberView {
                        status: if should_shutdown {
                            TeammateStatus::Shutdown
                        } else {
                            TeammateStatus::Idle
                        },
                        ..old(self).members@[k]@
                    },
                ),
                None => member_views(final(self).members@) == member_views(old(self).members@),
            },
            final(self).team_name@ == old(self).team_name@,
    {
        self.set_status_of(name, should_shutdown, true)
    }

    /// Sets the status of the first member called `name`: with `protocol`,
    /// to shut down or idle after `flag`; without, as `finished_status` says.
    fn set_status_of(
        &mut self,
        name: &str,
        flag: bool,
        protocol: bool,
    ) -> (r: bool)
        ensures
            r == (find_member(member_views(old(self).members@), name@) is Some),
            match find_member(member_views(old(self).members@), name@) {
                Some(k) => member_views(final(self).members@) == member_views(old(self).members@).update(
                    k,
                    MemberView { status: status_after(old(self).members@[k].status, flag, protocol), ..old(self).members@[k]@ },
                ),
                None => member_views(final(self).members@) == member_views(old(self).members@),
            },
            final(self).team_name@ == old(self).team_name@,
    {
        let ghost ms = member_views(self.members@);
        match self.position(name) {
            Some(i) => {
                let old_status = self.members[i].status;
                let status = if protocol {
                    if flag {
                        TeammateStatus::Shutdown
                    } else {
                        TeammateStatus::Idle
                    }
                } else if flag || old_status != TeammateStatus::Shutdown {
                    TeammateStatus::Idle
                } else {
                    old_status
                };
                assert(status == status_after(old_status, flag, protocol));
                let member = TeamMember {
                    name: self.members[i].name.clone(),
                    role: self.members[i].role.clone(),
                    status,
                };
                self.members.set(i, member);
                assert(member_views(self.members@) =~= ms.update(i as int, MemberView { status: status_after(ms[i as int].status, flag, protocol), ..ms[i as int] }));
                true
            },
            None => false,
        }
    }

    /// The team's listing: its name and a line per member, or
    /// `No teammates.`.
    pub fn list_all(&self) -> (r: String)
        ensures
            r@ == team_listing(self.team_name@, member_views(self.members@)),
    {
        if self.members.len() == 0 {
            return owned("No teammates.");
        }
        let ghost ms = member_views(self.members@);
        let mut lines: Vec<String> = Vec::new();
        lines.push(concat(owned("Team: "), self.team_name.as_str()));
        let mut i: usize = 0;
        while i < self.members.len()
            invariant
                i <= self.members.len(),
                ms == member_views(self.members@),
                views(lines@) == seq!["Team: "@ + self.team_name@] + ms.take(i as int).map_values(|m: MemberView| member_line(m)),
            decreases self.members.len() - i,
        {
            let m = &self.members[i];
            let line = concat(
                concat(concat(concat(concat(owned("  "), m.name.as_str()), " ("), m.role.as_str()), "): "),
                m.status.name().as_str(),
            );
            let ghost before = views(lines@);
            lines.push(line);
            assert(ms[i as int] == m@);
            assert(views(lines@) =~= before.push(member_line(ms[i as int])));
            assert(ms.take(i + 1).map_values(|m: MemberView| member_line(m)) =~= ms.take(i as int).map_values(|m: MemberView| member_line(m)).push(member_line(ms[i as int])));
            i = i + 1;
        }
        assert(ms.take(i as int) =~= ms);
        join(&lines, "\n")
    }

    /// The members' names, in order.
    pub fn member_names(&self) -> (r: Vec<String>)
        ensures
            views(r@) == member_views(self.members@).map_values(|m: MemberView| m.name),
    {
        let ghost ms = member_views(self.members@);
        let mut r: Vec<String> = Vec::new();
        let mut i: usize = 0;
        while i < self.members.len()
            invariant
                i <= self.members.len(),
                ms == member_views(self.members@),
                views(r@) == ms.take(i as int).map_values(|m: MemberView| m.name),
            decreases self.members.len() - i,
        {
            let ghost before = views(r@);
            r.push(self.members[i].name.clone());
            assert(ms[i as int] == self.members@[i as int]@);
            assert(views(r@) =~= before.push(ms[i as int].name));
            assert(views(r@) =~= ms.take(i + 1).map_values(|m: MemberView| m.name));
            i = i + 1;
        }
        assert(ms.take(i as int) =~= ms);
        r
    }
}

/// Only a working teammate is refused: a member that is idle or has shut down
/// is put to work again, in the new role, and the reply says it was spawned;
/// the roster is otherwise unchanged.
pub proof fn law_only_working_member_refused(ms: Seq<MemberView>, name: Seq<char>, role: Seq<char>)
    ensures
        spawn_refused(ms, name) <==> (find_member(ms, name) matches Some(k) && ms[k].status == TeammateStatus::Working),
        !spawn_refused(ms, name) ==> spawn_reply(ms, name, role) == "Spawned '"@ + name + "' (role: "@ + role + ")"@,
        forall|k: int|
            find_member(ms, name) == Some(k) && #[trigger] ms[k].status != TeammateStatus::Working ==> spawned_members(
                ms,
                name,
                role,
            ) == ms.update(k, MemberView { name: name, role: role, status: TeammateStatus::Working }),
{
}

/// A busy teammate cannot be put to work again: the roster stays as it was.
pub proof fn law_busy_member_not_respawned(ms: Seq<MemberView>, name: Seq<char>, role: Seq<char>)
    requires
        spawn_refused(ms, name),
    ensures
        spawned_members(ms, name, role) == ms,
{
}

/// After a teammate is put to work, the first member of that name is working
/// in that role.
pub proof fn law_spawned_member_is_working(ms: Seq<MemberView>, name: Seq<char>, role: Seq<char>)
    requires
        !spawn_refused(ms, name),
    ensures
        find_member(spawned_members(ms, name, role), name) is Some,
        spawned_members(ms, name, role)[find_member(spawned_members(ms, name, role), name)->0]
            == (MemberView { name: name, role: role, status: TeammateStatus::Working }),
{
    let n = spawned_members(ms, name, role);
    let w = MemberView { name: name, role: role, status: TeammateStatus::Working };
    lemma_find_member_from(ms, name, 0);
    match find_member(ms, name) {
        Some(k) => {
            assert(n == ms.update(k, w));
            assert(n[k] == w);
            assert forall|l: int| 0 <= l < k implies n[l].name != name by {
                assert(n[l] == ms[l]);
            }
            lemma_find_member_first(n, name, 0, k);
        },
        None => {
            let last = ms.len() as int;
            assert(n == ms.push(w));
            assert(n[last] == w);
            assert forall|l: int| 0 <= l < last implies n[l].name != name by {
                assert(n[l] == ms[l]);
            }
            lemma_find_member_first(n, name, 0, last);
        },
    }
}

/// The system prompt of a teammate's loop.
pub fn teammate_system_prompt(name: &str, role: &str, workdir: &str, with_protocols: bool) -> (r: String)
    ensures
        r@ == "You are '"@ + name@ + "', role: "@ + role@ + ", at "@ + workdir@ + (if with_protocols {
            ". Submit plans via plan_approval before major work. Respond to shutdown_request with shutdown_response."@
        } else {
            ". Use send_message to communicate. Complete your task."@
        }),
{
    let head = concat(concat(concat(concat(concat(owned("You are '"), name), "', role: "), role), ", at "), workdir);
    if with_protocols {
        concat(head, ". Submit plans via plan_approval before major work. Respond to shutdown_request with shutdown_response.")
    } else {
        concat(head, ". Use send_message to communicate. Complete your task.")
    }
}

// ---------------------------------------------------------------------------
// Inboxes
// ---------------------------------------------------------------------------

/// The inboxes of a team: one JSON-lines file per teammate in `inbox_dir`.
pub struct SharedMessageBus {
    pub inbox_dir: String,
}

/// A broadcast: the teammates to send to (all but the sender, in order), and
/// the reply once all were sent.
pub struct BroadcastPlan {
    pub recipients: Vec<String>,
    pub reply: String,
}

/// The teammates a broadcast from `sender` goes to.
pub open spec fn broadcast_recipients(sender: Seq<char>, names: Seq<Seq<char>>) -> Seq<Seq<char>>
    decreases names.len(),
{
    if names.len() == 0 {
        Seq::empty()
    } else if names.last() == sender {
        broadcast_recipients(sender, names.drop_last())
    } else {
        broadcast_recipients(sender, names.drop_last()).push(names.last())
    }
}

/// `s` split at each newline (`str::split('\n')`), computed left to right.
pub open spec fn split_newlines(s: Seq<char>) -> Seq<Seq<char>>
    decreases s.len(),
{
    if s.len() == 0 {
        seq![Seq::empty()]
    } else {
        let p = split_newlines(s.drop_last());
        if s.last() == '\n' {
            p.push(Seq::empty())
        } else {
            p.update(p.len() - 1, p.last().push(s.last()))
        }
    }
}

/// A line without its final carriage return.
pub open spec fn strip_cr(l: Seq<char>) -> Seq<char> {
    if l.len() > 0 && l.last() == '\r' {
        l.drop_last()
    } else {
        l
    }
}

/// The lines of `s` (`str::lines`): the pieces between newlines, without a
/// last empty piece, each without a final carriage return.
pub open spec fn text_lines(s: Seq<char>) -> Seq<Seq<char>> {
    let p = split_newlines(s);
    let q = if p.last().len() == 0 {
        p.drop_last()
    } else {
        p
    };
    q.map_values(|l: Seq<char>| strip_cr(l))
}

/// The lines of `ls` that hold more than white space.
pub open spec fn nonblank(ls: Seq<Seq<char>>) -> Seq<Seq<char>>
    decreases ls.len(),
{
    if ls.len() == 0 {
        ls
    } else if trim_spec(ls.last()).len() == 0 {
        nonblank(ls.drop_last())
    } else {
        nonblank(ls.drop_last()).push(ls.last())
    }
}

proof fn lemma_split_newlines_len(s: Seq<char>)
    ensures
        split_newlines(s).len() >= 1,
    decreases s.len(),
{
    if s.len() > 0 {
        lemma_split_newlines_len(s.drop_last());
    }
}

/// Whether `l` holds only white space.
fn is_blank(l: &Vec<char>) -> (r: bool)
    ensures
        r == (trim_spec(l@).len() == 0),
{
    let (a, b) = trim_bounds(l);
    a == b
}

/// The lines of an inbox file that hold a message: the non-blank lines.
pub fn inbox_lines(content: &str) -> (r: Vec<String>)
    ensures
        views(r@) == nonblank(text_lines(content@)),
{
    let v = chars_of(content);
    let ghost s = content@;
    let mut done: Vec<Vec<char>> = Vec::new();
    let mut cur: Vec<char> = Vec::new();
    let mut i: usize = 0;
    while i < v.len()
        invariant
            i <= v.len(),
            v@ == s,
            done@.map_values(|x: Vec<char>| x@).push(cur@) == split_newlines(s.take(i as int)),
        decreases v.len() - i,
    {
        let ghost p = split_newlines(s.take(i as int));
        assert(s.take(i + 1).drop_last() =~= s.take(i as int));
        assert(s.take(i + 1).last() == v@[i as int]);
        proof {
            lemma_split_newlines_len(s.take(i as int));
        }
        if v[i] == '\n' {
            let mut fresh: Vec<char> = Vec::new();
            std::mem::swap(&mut fresh, &mut cur);
            let ghost before = done@.map_values(|x: Vec<char>| x@);
            done.push(fresh);
            assert(done@.map_values(|x: Vec<char>| x@) =~= before.push(p.last()));
            assert(done@.map_values(|x: Vec<char>| x@).push(cur@) =~= p.push(Seq::<char>::empty()));
        } else {
            let ghost before = done@.map_values(|x: Vec<char>| x@);
            cur.push(v[i]);
            assert(before.push(cur@) =~= p.update(p.len() - 1, p.last().push(v@[i as int])));
        }
        i = i + 1;
    }
    assert(s.take(i as int) =~= s);
    if cur.len() > 0 {
        done.push(cur);
    }
    let ghost pieces = done@.map_values(|x: Vec<char>| x@);
    assert(pieces == (if split_newlines(s).last().len() == 0 {
        split_newlines(s).drop_last()
    } else {
        split_newlines(s)
    }));
    let ghost lines = pieces.map_values(|l: Seq<char>| strip_cr(l));
    assert(lines == text_lines(s));
    let mut r: Vec<String> = Vec::new();
    let mut j: usize = 0;
    while j < done.len()
        invariant
            j <= done.len(),
            pieces == done@.map_values(|x: Vec<char>| x@),
            lines == pieces.map_values(|l: Seq<char>| strip_cr(l)),
            views(r@) == nonblank(lines.take(j as int)),
        decreases done.len() - j,
    {
        assert(lines.take(j + 1).drop_last() =~= lines.take(j as int));
        assert(lines.take(j + 1).last() == lines[j as int]);
        let mut line = done[j].clone();
        if line.len() > 0 && line[line.len() - 1] == '\r' {
            line.pop();
        }
        assert(line@ == strip_cr(pieces[j as int]));
        if !is_blank(&line) {
            let ghost before = views(r@);
            r.push(string_of(&line));
            assert(views(r@) =~= before.push(lines[j as int]));
        }
        j = j + 1;
    }
    assert(lines.take(j as int) =~= lines);
    r
}

impl SharedMessageBus {
    /// The inboxes of the team in `team_dir`: its `inbox` directory.
    pub fn new(team_dir: &str) -> (r: SharedMessageBus)
        ensures
            r.inbox_dir@ == join_path_spec(team_dir@, "inbox"@),
    {
        SharedMessageBus { inbox_dir: join_path(team_dir, "inbox") }
    }

    /// The inbox file of `name`: `NAME.jsonl` in the inbox directory.
    pub fn inbox_path(&self, name: &str) -> (r: String)
        ensures
            r@ == join_path_spec(self.inbox_dir@, name@ + ".jsonl"@),
    {
        join_path(self.inbox_dir.as_str(), concat(owned(name), ".jsonl").as_str())
    }

    /// The inbox file that is created, empty, for a new teammate where it is
    /// missing.
    pub fn register_mailbox(&self, name: &str) -> (r: String)
        ensures
            r@ == join_path_spec(self.inbox_dir@, name@ + ".jsonl"@),
    {
        self.inbox_path(name)
    }

    /// The reply once a message went out: `Sent TYPE to NAME`.
    pub fn sent_reply(&self, message_type: MessageType, to: &str) -> (r: String)
        ensures
            r@ == "Sent "@ + message_type_name(message_type) + " to "@ + to@,
    {
        concat(concat(concat(owned("Sent "), message_type.name().as_str()), " to "), to)
    }

    /// A broadcast from `sender` to the team `teammates`: every teammate but
    /// the sender, and `Broadcast to N teammates`.
    pub fn broadcast(&self, sender: &str, teammates: &Vec<String>) -> (r: BroadcastPlan)
        ensures
            views(r.recipients@) == broadcast_recipients(sender@, views(teammates@)),
            r.reply@ == "Broadcast to "@ + decimal(broadcast_recipients(sender@, views(teammates@)).len())
                + " teammates"@,
    {
        let ghost names = views(teammates@);
        let mut recipients: Vec<String> = Vec::new();
        let mut i: usize = 0;
        while i < teammates.len()
            invariant
                i <= teammates.len(),
                names == views(teammates@),
                views(recipients@) == broadcast_recipients(sender@, names.take(i as int)),
                recipients.len() <= i,
            decreases teammates.len() - i,
        {
            assert(names.take(i + 1).drop_last() =~= names.take(i as int));
            assert(names.take(i + 1).last() == names[i as int]);
            if !str_eq(teammates[i].as_str(), sender) {
                let ghost before = views(recipients@);
                recipients.push(teammates[i].clone());
                assert(views(recipients@) =~= before.push(names[i as int]));
            }
            i = i + 1;
        }
        assert(names.take(i as int) =~= names);
        let reply = concat(concat(owned("Broadcast to "), usize_to_decimal(recipients.len()).as_str()), " teammates");
        BroadcastPlan { recipients, reply }
    }
}

/// A broadcast never goes to its sender.
pub proof fn law_broadcast_skips_sender(sender: Seq<char>, names: Seq<Seq<char>>)
    ensures
        !broadcast_recipients(sender, names).contains(sender),
        forall|n: Seq<char>| names.contains(n) && n != sender ==> #[trigger] broadcast_recipients(sender, names).contains(n),
    decreases names.len(),
{
    if names.len() > 0 {
        let d = names.drop_last();
        law_broadcast_skips_sender(sender, d);
        let r = broadcast_recipients(sender, d);
        if names.last() != sender {
            assert(!r.push(names.last()).contains(sender)) by {
                if r.push(names.last()).contains(sender) {
                    let k = choose|k: int| 0 <= k < r.push(names.last()).len() && r.push(names.last())[k] == sender;
                    if k < r.len() {
                        assert(r[k] == sender);
                    }
                }
            }
        }
        assert forall|n: Seq<char>| names.contains(n) && n != sender implies #[trigger] broadcast_recipients(sender, names).contains(n) by {
            let k = choose|k: int| 0 <= k < names.len() && names[k] == n;
            if k < d.len() {
                assert(d[k] == n);
                assert(d.contains(n));
                assert(broadcast_recipients(sender, d).contains(n));
                let j = choose|j: int| 0 <= j < r.len() && r[j] == n;
                if names.last() != sender {
                    assert(r.push(names.last())[j] == n);
                    assert(broadcast_recipients(sender, names) == r.push(names.last()));
                } else {
                    assert(broadcast_recipients(sender, names) == r);
                }
            } else {
                assert(names.last() == n);
                assert(broadcast_recipients(sender, names) == r.push(n));
                assert(r.push(n)[r.len() as int] == n);
            }
        }
    }
}

// ---------------------------------------------------------------------------
// Request protocols
// ---------------------------------------------------------------------------

/// What a request asks for.
#[derive(Clone, Copy, Debug, PartialEq, Eq, Structural)]
pub enum RequestKind {
    Shutdown,
    PlanApproval,
}

/// Where a request stands.
#[derive(Clone, Copy, Debug, PartialEq, Eq, Structural)]
pub enum RequestStatus {
    Pending,
    Approved,
    Rejected,
}

pub open spec fn request_kind_name(k: RequestKind) -> Seq<char> {
    match k {
        RequestKind::Shutdown => "shutdown"@,
        RequestKind::PlanApproval => "plan_approval"@,
    }
}

pub open spec fn request_status_name(s: RequestStatus) -> Seq<char> {
    match s {
        RequestStatus::Pending => "pending"@,
        RequestStatus::Approved => "approved"@,
        RequestStatus::Rejected => "rejected"@,
    }
}

impl RequestKind {
    /// The snake-case name of the kind.
    pub fn name(&self) -> (r: String)
        ensures
            r@ == request_kind_name(*self),
    {
        match self {
            RequestKind::Shutdown => owned("shutdown"),
            RequestKind::PlanApproval => owned("plan_approval"),
        }
    }
}

impl RequestStatus {
    /// The snake-case name of the status.
    pub fn name(&self) -> (r: String)
        ensures
            r@ == request_status_name(*self),
    {
        match self {
            RequestStatus::Pending => owned("pending"),
            RequestStatus::Approved => owned("approved"),
            RequestStatus::Rejected => owned("rejected"),
        }
    }
}

/// `Approved` for `true`, `Rejected` for `false`.
pub open spec fn approval_status_spec(approve: bool) -> RequestStatus {
    if approve {
        RequestStatus::Approved
    } else {
        RequestStatus::Rejected
    }
}

/// `Approved` for `true`, `Rejected` for `false`.
pub fn approval_status(approve: bool) -> (r: RequestStatus)
    ensures
        r == approval_status_spec(approve),
{
    if approve {
        RequestStatus::Approved
    } else {
        RequestStatus::Rejected
    }
}

/// A teammate's answer to a request.
pub struct ProtocolResponse {
    pub approve: bool,
    pub message: String,
}

/// A request between the lead and a teammate. Times are nanoseconds since
/// 1970.
pub struct RequestRecord {
    pub request_id: String,
    pub kind: RequestKind,
    pub from_name: String,
    pub to_name: String,
    pub status: RequestStatus,
    pub created_at: u128,
    pub updated_at: u128,
    pub plan: Option<String>,
    pub response: Option<ProtocolResponse>,
    pub feedback: Option<String>,
    pub reviewed_by: Option<String>,
    pub resolved_by: Option<String>,
    pub resolved_at: Option<u128>,
}

pub open spec fn opt_chars(o: Option<String>) -> Option<Seq<char>> {
    match o {
        Some(s) => Some(s@),
        None => None,
    }
}

impl RequestRecord {
    /// A pending request from the lead that `teammate` shut down, made at
    /// `now`.
    pub fn pending_shutdown(request_id: String, teammate: &str, now: u128) -> (r: RequestRecord)
        ensures
            r.request_id@ == request_id@,
            r.kind == RequestKind::Shutdown,
            r.from_name@ == "lead"@,
            r.to_name@ == teammate@,
            r.status == RequestStatus::Pending,
            r.created_at == now && r.updated_at == now,
            r.plan is None && r.response is None && r.feedback is None,
            r.reviewed_by is None && r.resolved_by is None && r.resolved_at is None,
    {
        RequestRecord {
            request_id,
            kind: RequestKind::Shutdown,
            from_name: owned("lead"),
            to_name: owned(teammate),
            status: RequestStatus::Pending,
            created_at: now,
            updated_at: now,
            plan: None,
            response: None,
            feedback: None,
            reviewed_by: None,
            resolved_by: None,
            resolved_at: None,
        }
    }

    /// A pending request from `from_name` that the lead approve `plan`, made
    /// at `now`.
    pub fn pending_plan_approval(request_id: String, from_name: &str, plan: &str, now: u128) -> (r: RequestRecord)
        ensures
            r.request_id@ == request_id@,
            r.kind == RequestKind::PlanApproval,
            r.from_name@ == from_name@,
            r.to_name@ == "lead"@,
            r.status == RequestStatus::Pending,
            r.created_at == now && r.updated_at == now,
            opt_chars(r.plan) == Some(plan@),
            r.response is None && r.feedback is None,
            r.reviewed_by is None && r.resolved_by is None && r.resolved_at is None,
    {
        RequestRecord {
            request_id,
            kind: RequestKind::PlanApproval,
            from_name: owned(from_name),
            to_name: owned("lead"),
            status: RequestStatus::Pending,
            created_at: now,
            updated_at: now,
            plan: Some(owned(plan)),
            response: None,
            feedback: None,
            reviewed_by: None,
            resolved_by: None,
            resolved_at: None,
        }
    }

    /// `sender` answers a shutdown request at `now`, approving it or not,
    /// with `reason`.
    pub fn resolve_shutdown(&mut self, sender: &str, approve: bool, reason: &str, now: u128)
        ensures
            final(self).status == approval_status_spec(approve),
            opt_chars(final(self).resolved_by) == Some(sender@),
            final(self).resolved_at == Some(now),
            final(self).response matches Some(p) && p.approve == approve && p.message@ == reason@,
            final(self).request_id@ == old(self).request_id@,
            final(self).kind == old(self).kind,
            final(self).from_name@ == old(self).from_name@,
            final(self).to_name@ == old(self).to_name@,
            final(self).created_at == old(self).created_at,
            final(self).updated_at == old(self).updated_at,
            opt_chars(final(self).plan) == opt_chars(old(self).plan),
            opt_chars(final(self).feedback) == opt_chars(old(self).feedback),
            opt_chars(final(self).reviewed_by) == opt_chars(old(self).reviewed_by),
    {
        self.status = approval_status(approve);
        self.resolved_by = Some(owned(sender));
        self.resolved_at = Some(now);
        self.response = Some(ProtocolResponse { approve, message: owned(reason) });
    }

    /// The lead reviews a plan at `now`, approving it or not; feedback that
    /// is empty is not kept.
    pub fn review_plan(&mut self, approve: bool, feedback: &str, now: u128)
        ensures
            final(self).status == approval_status_spec(approve),
            opt_chars(final(self).reviewed_by) == Some("lead"@),
            opt_chars(final(self).feedback) == (if feedback@.len() == 0 {
                None
            } else {
                Some(feedback@)
            }),
            final(self).resolved_at == Some(now),
            final(self).request_id@ == old(self).request_id@,
            final(self).kind == old(self).kind,
            final(self).from_name@ == old(self).from_name@,
            final(self).to_name@ == old(self).to_name@,
            final(self).created_at == old(self).created_at,
            final(self).updated_at == old(self).updated_at,
            opt_chars(final(self).plan) == opt_chars(old(self).plan),
            opt_chars(final(self).resolved_by) == opt_chars(old(self).resolved_by),
            final(self).response == old(self).response,
    {
        self.status = approval_status(approve);
        self.reviewed_by = Some(owned("lead"));
        self.feedback = if crate::text::char_count(feedback) == 0 {
            None
        } else {
            Some(owned(feedback))
        };
        self.resolved_at = Some(now);
    }

    /// The store's update stamp: the record was changed at `now`.
    pub fn touch(&mut self, now: u128)
        ensures
            *final(self) == (RequestRecord { updated_at: now, ..*old(self) }),
    {
        self.updated_at = now;
    }
}

/// The store's counter after handing out an id: one more, wrapping at the
/// top of `u64` as an atomic add does.
pub open spec fn next_request_counter(n: u64) -> u64 {
    if n == u64::MAX {
        0
    } else {
        (n + 1) as u64
    }
}

/// Request ids read back as the store's counter, so successive ids of one
/// store strictly increase (except where the counter wraps) and two
/// different counters never give the same id.
pub proof fn law_request_ids_increase(n: u64, m: u64)
    ensures
        hex_value(hex08(n as nat)) == n,
        n < u64::MAX ==> hex_value(hex08(next_request_counter(n) as nat)) == hex_value(hex08(n as nat)) + 1,
        n != m ==> hex08(n as nat) != hex08(m as nat),
{
    lemma_hex_value_hex08(n as nat);
    lemma_hex_value_hex08(m as nat);
    lemma_hex_value_hex08(next_request_counter(n) as nat);
}

/// Answering a request settles it: it is no longer pending.
pub proof fn law_answered_request_is_settled(approve: bool)
    ensures
        approval_status_spec(approve) != RequestStatus::Pending,
        (approval_status_spec(approve) == RequestStatus::Approved) == approve,
{
}

/// The requests of a team, one JSON file per request in `dir`, and the
/// number the next request id is made of.
pub struct SharedRequestStore {
    pub dir: String,
    pub next_id: u64,
}

impl SharedRequestStore {
    /// The requests of the team in `team_dir`, in its `requests` directory;
    /// ids start from `seed` (the clock's milliseconds).
    pub fn new(team_dir: &str, seed: u64) -> (r: SharedRequestStore)
        ensures
            r.dir@ == join_path_spec(team_dir@, "requests"@),
            r.next_id == seed,
    {
        SharedRequestStore { dir: join_path(team_dir, "requests"), next_id: seed }
    }

    /// A fresh request id: the next number in eight or more hexadecimal
    /// digits.
    pub fn next_request_id(&mut self) -> (r: String)
        ensures
            r@ == hex08(old(self).next_id as nat),
            final(self).next_id == next_request_counter(old(self).next_id),
            final(self).dir@ == old(self).dir@,
    {
        let n = self.next_id;
        self.next_id = if n == u64::MAX {
            0
        } else {
            n + 1
        };
        hex08_of(n)
    }

    /// The file of request `request_id`: `ID.json` in the directory.
    pub fn path(&self, request_id: &str) -> (r: String)
        ensures
            r@ == join_path_spec(self.dir@, request_id@ + ".json"@),
    {
        join_path(self.dir.as_str(), concat(owned(request_id), ".json").as_str())
    }
}

/// The reply to the lead once a shutdown request went out.
pub fn shutdown_request_reply(request_id: &str, teammate: &str) -> (r: String)
    ensures
        r@ == "Shutdown request "@ + request_id@ + " sent to '"@ + teammate@ + "' (status: pending)"@,
{
    concat(concat(concat(concat(owned("Shutdown request "), request_id), " sent to '"), teammate), "' (status: pending)")
}

/// The reply to a teammate's answer to a shutdown request; `known` says
/// whether the request exists.
pub fn shutdown_response_reply(known: bool, request_id: &str, approve: bool) -> (r: String)
    ensures
        r@ == if !known {
            "Error: Unknown shutdown request "@ + request_id@
        } else if approve {
            "Shutdown approved"@
        } else {
            "Shutdown rejected"@
        },
{
    if !known {
        concat(owned("Error: Unknown shutdown request "), request_id)
    } else if approve {
        owned("Shutdown approved")
    } else {
        owned("Shutdown rejected")
    }
}

/// The reply to the lead's review of plan `request_id`; `from_name` is who
/// submitted it, where the request exists.
pub fn plan_review_reply(request_id: &str, from_name: Option<&str>, approve: bool) -> (r: String)
    ensures
        r@ == match from_name {
            None => "Error: Unknown plan request_id '"@ + request_id@ + "'"@,
            Some(f) => "Plan "@ + (if approve {
                "approved"@
            } else {
                "rejected"@
            }) + " for '"@ + f@ + "'"@,
        },
{
    match from_name {
        None => concat(concat(owned("Error: Unknown plan request_id '"), request_id), "'"),
        Some(f) => {
            let verdict = if approve {
                "approved"
            } else {
                "rejected"
            };
            concat(concat(concat(concat(owned("Plan "), verdict), " for '"), f), "'")
        },
    }
}

/// The reply to a teammate that submitted a plan.
pub fn plan_submitted_reply(request_id: &str) -> (r: String)
    ensures
        r@ == "Plan submitted (request_id="@ + request_id@ + "). Waiting for lead approval."@,
{
    concat(concat(owned("Plan submitted (request_id="), request_id), "). Waiting for lead approval.")
}


/// How a message read from an inbox is shown: `TYPE from SENDER: CONTENT`.
pub fn inbox_message_text(message_type: MessageType, from_name: &str, content: &str) -> (r: String)
    ensures
        r@ == message_type_name(message_type) + " from "@ + from_name@ + ": "@ + content@,
{
    concat(concat(concat(concat(message_type.name(), " from "), from_name), ": "), content)
}

} // verus!
