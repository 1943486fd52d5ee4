//! Assembling the `Host → Agent → Session` tree the Agents rail renders.
//!
//! The event fold yields lanes; the shared host projection yields the agents
//! that exist; the PTY manager yields the live local sessions. This module
//! decides how those three meet: which lane becomes which agent's group, where
//! an agent the projection does not know is drawn, and which task row a live
//! session is folded into.

use vstd::prelude::*;

use crate::rail::{AgentLane, AgentRole, AgentRow, SessionRow, TaskState, TaskStatus};
use crate::sort::{stable_sort, stably_sorted, Comparator};
use crate::text::{to_string, trimmed, trimmed_eq, trimmed_is_empty};

verus! {

/// An agent row of the rail.
#[derive(Debug, Clone)]
pub struct AgentRailRow {
    /// The agent's roster id.
    pub agent_id: String,
    /// The host the agent is placed on.
    pub host_id: String,
    /// The projection's record of the agent, once placed on the tree.
    pub agent: Option<HostAgentRow>,
    /// The lane behind the row, when the agent has traffic.
    pub lane_index: Option<usize>,
}

/// One session under an agent: a dispatched task, a live local PTY, or both.
#[derive(Debug, Clone)]
pub struct SessionRailRow {
    /// The agent the session belongs to, when one claims it.
    pub agent_id: Option<String>,
    /// The owning agent's lane, when it has one.
    pub lane_index: Option<usize>,
    /// The dispatched task, when the session came from the fold.
    pub task: Option<TaskState>,
    /// The live local PTY, when this device runs it.
    pub local: Option<SessionRow>,
    /// Whether this is the last leaf of its group.
    pub last: bool,
}

/// An agent of the projection: one declared or advertised agent on a host.
#[derive(Debug, Clone)]
pub struct HostAgentRow {
    /// The agent's roster id.
    pub agent_id: String,
    /// What the agent is called.
    pub label: String,
}

/// Whether a host is this machine.
#[derive(Debug, Clone, Copy, PartialEq, Eq, Structural)]
pub enum HostKind {
    /// The machine looking at the rail.
    Local,
    /// A paired machine.
    Remote,
}

/// A host of the projection with its agents, in projection order.
#[derive(Debug, Clone)]
pub struct HostRow {
    /// The host's id.
    pub id: String,
    /// What the host is called.
    pub label: String,
    /// Whether it is this machine.
    pub kind: HostKind,
    /// The agents placed on it.
    pub agents: Vec<HostAgentRow>,
}

/// A host row of the rail.
#[derive(Debug, Clone)]
pub struct HostRailRow {
    /// The host's id.
    pub host_id: String,
    /// What the host is called.
    pub label: String,
    /// Whether it is this machine.
    pub local: bool,
}

/// One agent's group: its row and the sessions under it.
#[derive(Debug, Clone)]
pub struct AgentGroup {
    /// The agent row.
    pub row: AgentRailRow,
    /// The sessions under it, in display order.
    pub sessions: Vec<SessionRailRow>,
    /// When its lane last saw traffic.
    pub last_at: i64,
    /// The lane's label, when the agent has a lane.
    pub lane_label: Option<String>,
    /// The harness the lane reports.
    pub harness_label: Option<String>,
    /// How many task sublanes the fold showed.
    pub visible_tasks: usize,
    /// How many tasks the fold folded away under `+N more`.
    pub hidden: usize,
    /// Whether the fold's task list overflowed.
    pub overflow: bool,
}

/// One host's group: its row and the agents under it.
#[derive(Debug, Clone)]
pub struct HostGroup {
    /// The host row.
    pub row: HostRailRow,
    /// The agents placed on it.
    pub agents: Vec<AgentGroup>,
}

/// A session row is a merge target: a task row with no local session yet.
pub open spec fn is_merge_target(row: SessionRailRow) -> bool {
    row.local is None && row.task is Some
}

/// The lookup answered, for a task with id `task_id`, whether it is served by
/// the session `session_id`.
pub open spec fn observed_serving<F: Fn(&str) -> Option<String>>(
    served: F,
    task_id: Seq<char>,
    session_id: Seq<char>,
    serving: bool,
) -> bool {
    exists|t: &str, r: Option<String>|
        t@ == task_id && #[trigger] call_ensures(served, (t,), r) && serving == (r is Some && r->0@
            == session_id)
}

/// A lookup that never answers serves no task: with it, no task row is ever
/// observed serving a session, so [`task_row_serving`] finds none.
pub proof fn lemma_silent_lookup_serves_nothing<F: Fn(&str) -> Option<String>>(
    served: F,
    task_id: Seq<char>,
    session_id: Seq<char>,
)
    requires
        forall|t: &str, r: Option<String>| #[trigger] call_ensures(served, (t,), r) ==> r is None,
    ensures
        !observed_serving(served, task_id, session_id, true),
{
}

/// The session row at `(g, s)` comes before the one at `(g2, s2)` in the
/// flattened group order.
pub open spec fn before(g: int, s: int, g2: int, s2: int) -> bool {
    g < g2 || (g == g2 && s < s2)
}

/// The placed task row `session_id` is serving, given a task-to-session lookup:
/// the first row, in group then session order, that has a task but no local
/// session and whose task the lookup says `session_id` serves.
///
/// Rows that already carry a local session are skipped, so two live sessions
/// never collapse onto one task. A settled task is one the lookup no longer
/// answers for, and a retained session then keeps a row of its own.
pub fn task_row_serving<F: Fn(&str) -> Option<String>>(
    groups: &[AgentGroup],
    session_id: &str,
    served: F,
) -> (r: Option<(usize, usize)>)
    requires
        forall|t: &str| #[trigger] served.requires((t,)),
    ensures
        r is Some ==> {
            let (g, s) = r->0;
            &&& g < groups@.len()
            &&& s < groups@[g as int].sessions@.len()
            &&& is_merge_target(groups@[g as int].sessions@[s as int])
            &&& observed_serving(
                served,
                groups@[g as int].sessions@[s as int].task->0.task_id@,
                session_id@,
                true,
            )
        },
        forall|g: int, s: int|
            0 <= g < groups@.len() && 0 <= s < groups@[g].sessions@.len() && (r is None || before(
                g,
                s,
                (r->0).0 as int,
                (r->0).1 as int,
            )) && is_merge_target(#[trigger] groups@[g].sessions@[s]) ==> observed_serving(
                served,
                groups@[g].sessions@[s].task->0.task_id@,
                session_id@,
                false,
            ),
{
    let mut g: usize = 0;
    while g < groups.len()
        invariant
            0 <= g <= groups@.len(),
            forall|t: &str| #[trigger] served.requires((t,)),
            forall|gg: int, s: int|
                0 <= gg < g && 0 <= s < groups@[gg].sessions@.len() && is_merge_target(
                    #[trigger] groups@[gg].sessions@[s],
                ) ==> observed_serving(
                    served,
                    groups@[gg].sessions@[s].task->0.task_id@,
                    session_id@,
                    false,
                ),
        decreases groups@.len() - g,
    {
        let sessions = &groups[g].sessions;
        let mut s: usize = 0;
        while s < sessions.len()
            invariant
                0 <= g < groups@.len(),
                sessions@ == groups@[g as int].sessions@,
                0 <= s <= sessions@.len(),
                forall|t: &str| #[trigger] served.requires((t,)),
                forall|gg: int, ss: int|
                    0 <= gg < groups@.len() && 0 <= ss < groups@[gg].sessions@.len() && before(
                        gg,
                        ss,
                        g as int,
                        s as int,
                    ) && is_merge_target(#[trigger] groups@[gg].sessions@[ss]) ==> observed_serving(
                        served,
                        groups@[gg].sessions@[ss].task->0.task_id@,
                        session_id@,
                        false,
                    ),
            decreases sessions@.len() - s,
        {
            let row = &sessions[s];
            if row.local.is_none() {
                if let Some(task) = &row.task {
                    let answer = served(task.task_id.as_str());
                    let serving = match &answer {
                        Some(id) => crate::text::str_eq(id.as_str(), session_id),
                        None => false,
                    };
                    assert(observed_serving(served, task.task_id@, session_id@, serving));
                    if serving {
                        return Some((g, s));
                    }
                }
            }
            s += 1;
        }
        g += 1;
    }
    None
}

} // verus!

verus! {

/// Where a lane the tree does not know is drawn: the first host whose id
/// matches the one the lane names, when it names one; otherwise the first
/// host that is this machine.
pub open spec fn spec_unplaced_host(hosts: Seq<HostGroup>, host_id: Seq<char>) -> Option<int> {
    if trimmed(host_id).len() > 0 && exists|i: int|
        0 <= i < hosts.len() && trimmed(#[trigger] hosts[i].row.host_id@) == trimmed(host_id) {
        Some(
            choose|i: int|
                0 <= i < hosts.len() && trimmed(hosts[i].row.host_id@) == trimmed(host_id) && forall|
                    j: int,
                |
                    0 <= j < i ==> trimmed(#[trigger] hosts[j].row.host_id@) != trimmed(host_id),
        )
    } else if exists|i: int| 0 <= i < hosts.len() && #[trigger] hosts[i].row.local {
        Some(
            choose|i: int|
                0 <= i < hosts.len() && hosts[i].row.local && forall|j: int|
                    0 <= j < i ==> !#[trigger] hosts[j].row.local,
        )
    } else {
        None
    }
}

/// Where a lane the tree does not know is drawn: the host it names if that
/// host is on the tree, else the machine looking at it. `None` only when there
/// is no host at all to hang it from.
pub fn unplaced_host(hosts: &[HostGroup], host_id: &str) -> (r: Option<usize>)
    ensures
        r is Some ==> r->0 < hosts@.len(),
        r == match spec_unplaced_host(hosts@, host_id@) {
            Some(i) => Some(i as usize),
            None => None::<usize>,
        },
{
    if !trimmed_is_empty(host_id) {
        let mut i: usize = 0;
        while i < hosts.len()
            invariant
                0 <= i <= hosts@.len(),
                trimmed(host_id@).len() > 0,
                forall|j: int| 0 <= j < i ==> trimmed(#[trigger] hosts@[j].row.host_id@) != trimmed(host_id@),
            decreases hosts@.len() - i,
        {
            if trimmed_eq(hosts[i].row.host_id.as_str(), host_id) {
                proof {
                    let c = choose|c: int|
                        0 <= c < hosts@.len() && trimmed(hosts@[c].row.host_id@) == trimmed(host_id@)
                            && forall|j: int|
                            0 <= j < c ==> trimmed(#[trigger] hosts@[j].row.host_id@) != trimmed(
                                host_id@,
                            );
                    assert(trimmed(hosts@[i as int].row.host_id@) == trimmed(host_id@));
                    if c < i {
                    } else if c > i {
                        assert(trimmed(hosts@[i as int].row.host_id@) != trimmed(host_id@));
                    }
                }
                return Some(i);
            }
            i += 1;
        }
        assert(!exists|c: int|
            0 <= c < hosts@.len() && trimmed(#[trigger] hosts@[c].row.host_id@) == trimmed(host_id@));
    }
    let mut k: usize = 0;
    while k < hosts.len()
        invariant
            0 <= k <= hosts@.len(),
            forall|j: int| 0 <= j < k ==> !#[trigger] hosts@[j].row.local,
            trimmed(host_id@).len() == 0 || !exists|c: int|
                0 <= c < hosts@.len() && trimmed(#[trigger] hosts@[c].row.host_id@) == trimmed(host_id@),
        decreases hosts@.len() - k,
    {
        if hosts[k].row.local {
            proof {
                let c = choose|c: int|
                    0 <= c < hosts@.len() && hosts@[c].row.local && forall|j: int|
                        0 <= j < c ==> !#[trigger] hosts@[j].row.local;
                assert(hosts@[k as int].row.local);
                if c < k {
                } else if c > k {
                    assert(!hosts@[k as int].row.local);
                }
            }
            return Some(k);
        }
        k += 1;
    }
    None
}

/// Tasks ordered running first, then most recent first.
pub struct TaskOrder;

/// A task ranks before another: it is running and the other is not, or both
/// are alike and it saw activity no earlier.
pub open spec fn task_le(a: TaskState, b: TaskState) -> bool {
    let ra = a.status == TaskStatus::Running;
    let rb = b.status == TaskStatus::Running;
    (ra && !rb) || (ra == rb && a.last_at >= b.last_at)
}

impl Comparator<TaskState> for TaskOrder {
    open spec fn spec_le(&self, a: &TaskState, b: &TaskState) -> bool {
        task_le(*a, *b)
    }

    proof fn lemma_total(&self, a: &TaskState, b: &TaskState) {
    }

    proof fn lemma_trans(&self, a: &TaskState, b: &TaskState, c: &TaskState) {
    }

    fn le(&self, a: &TaskState, b: &TaskState) -> (r: bool) {
        let ra = match a.status {
            TaskStatus::Running => true,
            _ => false,
        };
        let rb = match b.status {
            TaskStatus::Running => true,
            _ => false,
        };
        (ra && !rb) || (ra == rb && a.last_at >= b.last_at)
    }
}

/// A lane's tasks in sublane order: running first, then most recent; tasks
/// alike on both counts keep their fold order.
pub fn ordered_tasks(tasks: &[TaskState]) -> (r: Vec<TaskState>)
    ensures
        stably_sorted(TaskOrder, tasks@, r@),
{
    let mut copy: Vec<TaskState> = Vec::new();
    let mut i: usize = 0;
    while i < tasks.len()
        invariant
            0 <= i <= tasks@.len(),
            copy@ == tasks@.take(i as int),
        decreases tasks@.len() - i,
    {
        copy.push(tasks[i].cloned());
        assert(copy@ =~= tasks@.take(i + 1));
        i += 1;
    }
    assert(copy@ =~= tasks@);
    stable_sort(copy, &TaskOrder)
}

/// The prefix a lane key carries when it names an agent.
pub open spec fn agent_key_prefix() -> Seq<char> {
    seq!['a', 'g', 'e', 'n', 't', ':']
}

/// `s` with every leading `agent:` removed.
pub open spec fn strip_agent_prefix(s: Seq<char>) -> Seq<char>
    decreases s.len(),
{
    if s.len() >= 6 && s.take(6) == agent_key_prefix() {
        strip_agent_prefix(s.skip(6))
    } else {
        s
    }
}

/// `s` with every leading `agent:` removed, as `str::trim_start_matches` does.
pub fn trim_agent_prefix(s: &str) -> (r: String)
    ensures
        r@ == strip_agent_prefix(s@),
{
    let v = crate::text::chars_of(s);
    let mut i: usize = 0;
    assert(v@.skip(0) =~= v@);
    while v.len() >= 6 && i <= v.len() - 6 && v[i] == 'a' && v[i + 1] == 'g' && v[i + 2] == 'e' && v[i + 3] == 'n'
        && v[i + 4] == 't' && v[i + 5] == ':'
        invariant
            0 <= i <= v@.len(),
            strip_agent_prefix(v@.skip(i as int)) == strip_agent_prefix(v@),
        decreases v@.len() - i,
    {
        proof {
            let rest = v@.skip(i as int);
            assert(rest.take(6) =~= agent_key_prefix());
            assert(rest.skip(6) =~= v@.skip(i + 6));
        }
        i += 6;
    }
    proof {
        let rest = v@.skip(i as int);
        if rest.len() >= 6 && rest.take(6) == agent_key_prefix() {
            assert(rest.take(6)[0] == v@[i as int]);
            assert(rest.take(6)[1] == v@[i + 1]);
            assert(rest.take(6)[2] == v@[i + 2]);
            assert(rest.take(6)[3] == v@[i + 3]);
            assert(rest.take(6)[4] == v@[i + 4]);
            assert(rest.take(6)[5] == v@[i + 5]);
        }
        assert(v@.subrange(i as int, v@.len() as int) =~= rest);
    }
    crate::text::string_from_chars(v.as_slice(), i, v.len())
}

/// The agent id a lane's group is keyed by: the roster id the hub filed its
/// tasks under, or the lane key without its `agent:` prefix.
pub open spec fn lane_agent_id(lane: AgentLane) -> Seq<char> {
    match lane.agent_id {
        Some(id) => id@,
        None => strip_agent_prefix(lane.key@),
    }
}

/// The view of an optional string.
pub open spec fn opt_string_view(s: Option<String>) -> Option<Seq<char>> {
    match s {
        Some(s) => Some(s@),
        None => None,
    }
}

/// `session` is the sublane row a lane's group carries for `task`.
pub open spec fn is_task_session(
    session: SessionRailRow,
    agent_id: Seq<char>,
    lane_index: usize,
    task: TaskState,
) -> bool {
    &&& opt_string_view(session.agent_id) == Some(agent_id)
    &&& session.lane_index == Some(lane_index)
    &&& session.task == Some(task)
    &&& session.local is None
    &&& !session.last
}

/// `g` is the group `lane` (at `lane_index`) opens, whatever its counters: keyed
/// by the lane's agent id, hinted at the host its descriptor names, with one
/// session row per task in sublane order.
pub open spec fn opens(g: AgentGroup, lane: AgentLane, lane_index: usize) -> bool {
    &&& g.row.agent_id@ == lane_agent_id(lane)
    &&& g.row.host_id@ == match lane.host_id {
        Some(h) => h@,
        None => Seq::<char>::empty(),
    }
    &&& g.row.agent is None
    &&& g.row.lane_index == Some(lane_index)
    &&& g.last_at == lane.last_at
    &&& opt_string_view(g.lane_label) == Some(lane.label@)
    &&& g.harness_label == lane.harness_label
    &&& exists|order: Seq<TaskState>|
        {
            &&& stably_sorted(TaskOrder, lane.tasks@, order)
            &&& g.sessions@.len() == order.len()
            &&& forall|k: int|
                0 <= k < order.len() ==> is_task_session(
                    #[trigger] g.sessions@[k],
                    lane_agent_id(lane),
                    lane_index,
                    order[k],
                )
        }
}

/// A copy of an optional string.
fn clone_opt(s: &Option<String>) -> (r: Option<String>)
    ensures
        r == *s,
{
    match s {
        Some(s) => Some(s.clone()),
        None => None,
    }
}

/// The group an agent-role lane opens: keyed by the lane's agent id, hinted at
/// the host its descriptor names, with one session row per task in sublane
/// order and the fold's counters cleared.
pub fn group_for_lane(lane: &AgentLane, lane_index: usize) -> (g: AgentGroup)
    ensures
        opens(g, *lane, lane_index),
        g.visible_tasks == 0,
        g.hidden == 0,
        !g.overflow,
{
    let agent_id = match &lane.agent_id {
        Some(id) => id.clone(),
        None => trim_agent_prefix(lane.key.as_str()),
    };
    let host_id = match &lane.host_id {
        Some(h) => h.clone(),
        None => String::new(),
    };
    let order = ordered_tasks(lane.tasks.as_slice());
    let mut sessions: Vec<SessionRailRow> = Vec::new();
    let mut k: usize = 0;
    while k < order.len()
        invariant
            0 <= k <= order@.len(),
            agent_id@ == lane_agent_id(*lane),
            sessions@.len() == k,
            forall|j: int|
                0 <= j < k ==> is_task_session(
                    #[trigger] sessions@[j],
                    lane_agent_id(*lane),
                    lane_index,
                    order@[j],
                ),
        decreases order@.len() - k,
    {
        sessions.push(
            SessionRailRow {
                agent_id: Some(agent_id.clone()),
                lane_index: Some(lane_index),
                task: Some(order[k].cloned()),
                local: None,
                last: false,
            },
        );
        k += 1;
    }
    AgentGroup {
        row: AgentRailRow { agent_id, host_id, agent: None, lane_index: Some(lane_index) },
        sessions,
        last_at: lane.last_at,
        lane_label: Some(lane.label.clone()),
        harness_label: clone_opt(&lane.harness_label),
        visible_tasks: 0,
        hidden: 0,
        overflow: false,
    }
}

} // verus!

verus! {

/// `row` is the header of an agent-role lane.
pub open spec fn is_agent_lane_row(row: AgentRow, lanes: Seq<AgentLane>) -> bool {
    match row {
        AgentRow::Lane { lane_index } => lane_index < lanes.len() && lanes[lane_index as int].role
            == AgentRole::Agent,
        _ => false,
    }
}

/// `row` keeps its own rail row: a lane header that is not an agent's, or the
/// lane list's divider.
pub open spec fn is_kept_row(row: AgentRow, lanes: Seq<AgentLane>) -> bool {
    match row {
        AgentRow::Lane { lane_index } => lane_index < lanes.len() && lanes[lane_index as int].role
            != AgentRole::Agent,
        AgentRow::Separator => true,
        _ => false,
    }
}

/// The offsets, in order, of the agent lane headers among the first `n` rows.
pub open spec fn agent_positions(rows: Seq<AgentRow>, lanes: Seq<AgentLane>, n: int) -> Seq<int> {
    Seq::new(n as nat, |i: int| i).filter(|i: int| is_agent_lane_row(rows[i], lanes))
}

/// How many task sublanes `seg` holds.
pub open spec fn sub_count(seg: Seq<AgentRow>) -> nat {
    seg.filter(|row: AgentRow| row is Sub).len()
}

/// How many tasks the `+N more` counters in `seg` fold away, together.
pub open spec fn hidden_sum(seg: Seq<AgentRow>) -> int
    decreases seg.len(),
{
    if seg.len() == 0 {
        0
    } else {
        hidden_sum(seg.drop_last()) + match seg.last() {
            AgentRow::More { hidden, .. } => hidden as int,
            _ => 0,
        }
    }
}

/// Whether `seg` holds a `+N more` counter.
pub open spec fn has_more(seg: Seq<AgentRow>) -> bool {
    exists|i: int| 0 <= i < seg.len() && #[trigger] seg[i] is More
}

/// Where the `k`-th group's rows end: at the next agent lane header, or at `n`.
pub open spec fn segment_end(pos: Seq<int>, k: int, n: int) -> int {
    if k + 1 < pos.len() {
        pos[k + 1]
    } else {
        n
    }
}

/// The lane index an agent lane header carries.
pub open spec fn row_lane(row: AgentRow) -> usize {
    match row {
        AgentRow::Lane { lane_index } => lane_index,
        AgentRow::Sub { lane_index, .. } => lane_index,
        AgentRow::More { lane_index, .. } => lane_index,
        AgentRow::Separator => 0,
    }
}

/// `groups` are the groups the agent lane headers among the first `n` rows
/// open, each with the counters of the rows that follow it up to the next one.
pub open spec fn groups_of(
    rows: Seq<AgentRow>,
    lanes: Seq<AgentLane>,
    n: int,
    groups: Seq<AgentGroup>,
) -> bool {
    let pos = agent_positions(rows, lanes, n);
    &&& groups.len() == pos.len()
    &&& forall|k: int|
        0 <= k < groups.len() ==> {
            let p = pos[k];
            let li = row_lane(rows[p]);
            let seg = rows.subrange(p + 1, segment_end(pos, k, n));
            &&& 0 <= p < n
            &&& li < lanes.len()
            &&& opens(#[trigger] groups[k], lanes[li as int], li)
            &&& groups[k].visible_tasks == sub_count(seg)
            &&& groups[k].hidden == hidden_sum(seg)
            &&& groups[k].overflow == has_more(seg)
        }
}

/// Splitting a sequence splits its hidden total.
pub proof fn lemma_hidden_sum_concat(a: Seq<AgentRow>, b: Seq<AgentRow>)
    ensures
        hidden_sum(a + b) == hidden_sum(a) + hidden_sum(b),
    decreases b.len(),
{
    if b.len() == 0 {
        assert(a + b =~= a);
    } else {
        assert((a + b).drop_last() =~= a + b.drop_last());
        lemma_hidden_sum_concat(a, b.drop_last());
    }
}

/// Hidden totals are never negative.
pub proof fn lemma_hidden_sum_nonneg(a: Seq<AgentRow>)
    ensures
        hidden_sum(a) >= 0,
    decreases a.len(),
{
    if a.len() > 0 {
        lemma_hidden_sum_nonneg(a.drop_last());
    }
}

/// A stretch of rows hides no more than the whole list does.
pub proof fn lemma_hidden_sum_sub(a: Seq<AgentRow>, lo: int, hi: int)
    requires
        0 <= lo <= hi <= a.len(),
    ensures
        hidden_sum(a.subrange(lo, hi)) <= hidden_sum(a),
{
    let x = a.subrange(0, lo);
    let y = a.subrange(lo, hi);
    let z = a.subrange(hi, a.len() as int);
    assert(a =~= x + y + z);
    lemma_hidden_sum_concat(x + y, z);
    lemma_hidden_sum_concat(x, y);
    lemma_hidden_sum_nonneg(x);
    lemma_hidden_sum_nonneg(z);
}

/// The agent header offsets grow by at most the next row, and stay ordered
/// and in range.
pub proof fn lemma_positions(rows: Seq<AgentRow>, lanes: Seq<AgentLane>, n: int)
    requires
        0 <= n <= rows.len(),
    ensures
        forall|j: int|
            0 <= j < agent_positions(rows, lanes, n).len() ==> 0 <= #[trigger] agent_positions(
                rows,
                lanes,
                n,
            )[j] < n,
        forall|j: int|
            0 <= j < agent_positions(rows, lanes, n).len() ==> is_agent_lane_row(
                rows[#[trigger] agent_positions(rows, lanes, n)[j]],
                lanes,
            ),
        forall|a: int, b: int|
            0 <= a < b < agent_positions(rows, lanes, n).len() ==> #[trigger] agent_positions(
                rows,
                lanes,
                n,
            )[a] < #[trigger] agent_positions(rows, lanes, n)[b],
        n < rows.len() ==> agent_positions(rows, lanes, n + 1) == if is_agent_lane_row(
            rows[n],
            lanes,
        ) {
            agent_positions(rows, lanes, n).push(n)
        } else {
            agent_positions(rows, lanes, n)
        },
    decreases n,
{
    let f = |i: int| is_agent_lane_row(rows[i], lanes);
    reveal(Seq::filter);
    if n < rows.len() {
        assert(Seq::new((n + 1) as nat, |j: int| j).drop_last() =~= Seq::new(n as nat, |j: int| j));
    }
    if n > 0 {
        lemma_positions(rows, lanes, n - 1);
        assert(Seq::new(n as nat, |j: int| j).drop_last() =~= Seq::new((n - 1) as nat, |j: int| j));
    }
}

/// A row that opens no group and tallies into none leaves the groups as they
/// were.
pub proof fn lemma_groups_keep(
    rows: Seq<AgentRow>,
    lanes: Seq<AgentLane>,
    i: int,
    groups: Seq<AgentGroup>,
)
    requires
        0 <= i < rows.len(),
        groups_of(rows, lanes, i, groups),
        !is_agent_lane_row(rows[i], lanes),
        groups.len() == 0 || !(rows[i] is Sub || rows[i] is More),
    ensures
        groups_of(rows, lanes, i + 1, groups),
{
    lemma_positions(rows, lanes, i);
    let pos = agent_positions(rows, lanes, i);
    assert forall|k: int| 0 <= k < groups.len() implies {
        let p = pos[k];
        let li = row_lane(rows[p]);
        let seg = rows.subrange(p + 1, segment_end(pos, k, i + 1));
        &&& 0 <= p < i + 1
        &&& li < lanes.len()
        &&& opens(#[trigger] groups[k], lanes[li as int], li)
        &&& groups[k].visible_tasks == sub_count(seg)
        &&& groups[k].hidden == hidden_sum(seg)
        &&& groups[k].overflow == has_more(seg)
    } by {
        lemma_segment_grows(rows, pos, k, i);
    }
}

/// Tallying row `i` into the last group, as its counters say, keeps the groups
/// in step with the rows.
pub proof fn lemma_groups_tally(
    rows: Seq<AgentRow>,
    lanes: Seq<AgentLane>,
    i: int,
    groups: Seq<AgentGroup>,
    updated: AgentGroup,
)
    requires
        0 <= i < rows.len(),
        groups_of(rows, lanes, i, groups),
        groups.len() > 0,
        !is_agent_lane_row(rows[i], lanes),
        ({
            let last = groups.last();
            &&& updated.row == last.row
            &&& updated.sessions@ == last.sessions@
            &&& updated.sessions == last.sessions
            &&& updated.last_at == last.last_at
            &&& updated.lane_label == last.lane_label
            &&& updated.harness_label == last.harness_label
            &&& updated.visible_tasks == last.visible_tasks + (if rows[i] is Sub { 1int } else { 0 })
            &&& updated.hidden == last.hidden + match rows[i] {
                AgentRow::More { hidden, .. } => hidden as int,
                _ => 0,
            }
            &&& updated.overflow == (last.overflow || rows[i] is More)
        }),
    ensures
        groups_of(rows, lanes, i + 1, groups.drop_last().push(updated)),
{
    lemma_positions(rows, lanes, i);
    let pos = agent_positions(rows, lanes, i);
    let ng = groups.drop_last().push(updated);
    let last = (groups.len() - 1) as int;
    assert forall|k: int| 0 <= k < ng.len() implies {
        let p = pos[k];
        let li = row_lane(rows[p]);
        let seg = rows.subrange(p + 1, segment_end(pos, k, i + 1));
        &&& 0 <= p < i + 1
        &&& li < lanes.len()
        &&& opens(#[trigger] ng[k], lanes[li as int], li)
        &&& ng[k].visible_tasks == sub_count(seg)
        &&& ng[k].hidden == hidden_sum(seg)
        &&& ng[k].overflow == has_more(seg)
    } by {
        lemma_segment_grows(rows, pos, k, i);
        if k == last {
            assert(opens(groups[k], lanes[row_lane(rows[pos[k]]) as int], row_lane(rows[pos[k]])));
        } else {
            assert(ng[k] == groups[k]);
        }
    }
}

/// Split the folded rows into the ones that keep their own rail rows and the
/// per-agent groups.
///
/// Each agent lane header opens a group; the task sublanes and `+N more`
/// counters after it, up to the next one, are tallied into it. Rows before the
/// first group, and lane headers naming no lane, are dropped.
pub fn split_fold(rows: &[AgentRow], lanes: &[AgentLane]) -> (r: (Vec<AgentRow>, Vec<AgentGroup>))
    requires
        hidden_sum(rows@) <= usize::MAX,
    ensures
        r.0@ == rows@.filter(|row: AgentRow| is_kept_row(row, lanes@)),
        groups_of(rows@, lanes@, rows@.len() as int, r.1@),
{
    let ghost kept = |row: AgentRow| is_kept_row(row, lanes@);
    let mut lane_rows: Vec<AgentRow> = Vec::new();
    let mut groups: Vec<AgentGroup> = Vec::new();
    let mut i: usize = 0;
    proof {
        reveal(Seq::filter);
        assert(Seq::new(0nat, |j: int| j).filter(|j: int| is_agent_lane_row(rows@[j], lanes@))
            =~= Seq::<int>::empty());
    }
    while i < rows.len()
        invariant
            0 <= i <= rows@.len(),
            hidden_sum(rows@) <= usize::MAX,
            kept == (|row: AgentRow| is_kept_row(row, lanes@)),
            lane_rows@ == rows@.take(i as int).filter(kept),
            groups_of(rows@, lanes@, i as int, groups@),
        decreases rows@.len() - i,
    {
        proof {
            reveal(Seq::filter);
            assert(rows@.take(i + 1).drop_last() =~= rows@.take(i as int));
            assert(rows@.take(i + 1).last() == rows@[i as int]);
            lemma_positions(rows@, lanes@, i as int);
        }
        let ghost old_groups = groups@;
        match &rows[i] {
            AgentRow::Lane { lane_index } => {
                if *lane_index < lanes.len() {
                    let is_agent = match lanes[*lane_index].role {
                        AgentRole::Agent => true,
                        _ => false,
                    };
                    if !is_agent {
                        lane_rows.push(rows[i].cloned());
                        proof {
                            lemma_groups_keep(rows@, lanes@, i as int, groups@);
                        }
                    } else {
                        let g = group_for_lane(&lanes[*lane_index], *lane_index);
                        groups.push(g);
                        proof {
                            let pos = agent_positions(rows@, lanes@, i as int);
                            let pos2 = agent_positions(rows@, lanes@, i + 1);
                            assert(pos2 == pos.push(i as int));
                            let e = rows@.subrange(i + 1, i + 1);
                            assert(e =~= Seq::<AgentRow>::empty());
                            assert(e.filter(|row: AgentRow| row is Sub) =~= Seq::<AgentRow>::empty());
                            assert forall|k: int| 0 <= k < groups@.len() implies {
                                let p = pos2[k];
                                let li = row_lane(rows@[p]);
                                let seg = rows@.subrange(p + 1, segment_end(pos2, k, i + 1));
                                &&& 0 <= p < i + 1
                                &&& li < lanes@.len()
                                &&& opens(#[trigger] groups@[k], lanes@[li as int], li)
                                &&& groups@[k].visible_tasks == sub_count(seg)
                                &&& groups@[k].hidden == hidden_sum(seg)
                                &&& groups@[k].overflow == has_more(seg)
                            } by {
                                if k < old_groups.len() {
                                    assert(segment_end(pos2, k, i + 1) == segment_end(pos, k, i as int));
                                    assert(groups@[k] == old_groups[k]);
                                } else {
                                    assert(pos2[k] == i);
                                }
                            }
                        }
                    }
                } else {
                    proof {
                        lemma_groups_keep(rows@, lanes@, i as int, groups@);
                    }
                }
            },
            AgentRow::Sub { .. } => {
                if groups.len() > 0 {
                    let mut last = groups.pop().unwrap();
                    proof {
                        let pos = agent_positions(rows@, lanes@, i as int);
                        let k = (old_groups.len() - 1) as int;
                        let seg = rows@.subrange(pos[k] + 1, segment_end(pos, k, i as int));
                        seg.lemma_filter_len(|row: AgentRow| row is Sub);
                    }
                    last.visible_tasks = last.visible_tasks + 1;
                    groups.push(last);
                    proof {
                        assert(groups@ == old_groups.drop_last().push(last));
                        lemma_groups_tally(rows@, lanes@, i as int, old_groups, last);
                    }
                } else {
                    proof {
                        lemma_groups_keep(rows@, lanes@, i as int, groups@);
                    }
                }
            },
            AgentRow::More { hidden, .. } => {
                if groups.len() > 0 {
                    let mut last = groups.pop().unwrap();
                    proof {
                        let pos = agent_positions(rows@, lanes@, i as int);
                        let k = (old_groups.len() - 1) as int;
                        let p = pos[k];
                        lemma_segment_grows(rows@, pos, k, i as int);
                        lemma_hidden_sum_sub(rows@, p + 1, i + 1);
                        assert(rows@.subrange(p + 1, i + 1) =~= rows@.subrange(p + 1, i as int).push(rows@[i as int]));
                        assert(rows@.subrange(p + 1, i + 1).drop_last() =~= rows@.subrange(p + 1, i as int));
                    }
                    last.hidden = last.hidden + *hidden;
                    last.overflow = true;
                    groups.push(last);
                    proof {
                        assert(groups@ == old_groups.drop_last().push(last));
                        lemma_groups_tally(rows@, lanes@, i as int, old_groups, last);
                    }
                } else {
                    proof {
                        lemma_groups_keep(rows@, lanes@, i as int, groups@);
                    }
                }
            },
            AgentRow::Separator => {
                lane_rows.push(AgentRow::Separator);
                proof {
                    lemma_groups_keep(rows@, lanes@, i as int, groups@);
                }
            },
        }
        i += 1;
    }
    assert(rows@.take(rows@.len() as int) =~= rows@);
    (lane_rows, groups)
}

/// Extending the rows by one that is not an agent lane header extends only the
/// last group's stretch, by that one row.
pub proof fn lemma_segment_grows(rows: Seq<AgentRow>, pos: Seq<int>, k: int, i: int)
    requires
        0 <= k < pos.len(),
        0 <= i < rows.len(),
        forall|j: int| 0 <= j < pos.len() ==> 0 <= #[trigger] pos[j] < i,
        forall|a: int, b: int| 0 <= a < b < pos.len() ==> #[trigger] pos[a] < #[trigger] pos[b],
    ensures
        ({
            let p = pos[k];
            let old_seg = rows.subrange(p + 1, segment_end(pos, k, i));
            let new_seg = rows.subrange(p + 1, segment_end(pos, k, i + 1));
            &&& k + 1 < pos.len() ==> new_seg == old_seg
            &&& k + 1 == pos.len() ==> new_seg == old_seg.push(rows[i])
            &&& sub_count(new_seg) == sub_count(old_seg) + (if k + 1 == pos.len() && rows[i] is Sub { 1int } else { 0 })
            &&& hidden_sum(new_seg) == hidden_sum(old_seg) + (if k + 1 == pos.len() {
                match rows[i] {
                    AgentRow::More { hidden, .. } => hidden as int,
                    _ => 0,
                }
            } else {
                0
            })
            &&& has_more(new_seg) == (has_more(old_seg) || (k + 1 == pos.len() && rows[i] is More))
        }),
{
    let p = pos[k];
    let old_seg = rows.subrange(p + 1, segment_end(pos, k, i));
    let new_seg = rows.subrange(p + 1, segment_end(pos, k, i + 1));
    if k + 1 == pos.len() {
        assert(new_seg =~= old_seg.push(rows[i]));
        assert(new_seg.drop_last() =~= old_seg);
        reveal(Seq::filter);
        if rows[i] is More {
            assert(new_seg[new_seg.len() - 1] is More);
        }
        if has_more(new_seg) && !(rows[i] is More) {
            let w = choose|w: int| 0 <= w < new_seg.len() && #[trigger] new_seg[w] is More;
            assert(old_seg[w] is More);
        }
        if has_more(old_seg) {
            let w = choose|w: int| 0 <= w < old_seg.len() && #[trigger] old_seg[w] is More;
            assert(new_seg[w] is More);
        }
    } else {
        assert(pos[k + 1] < i);
    }
}

} // verus!

verus! {

/// `g` carries the lane-derived content of `f`: the same lane, sessions,
/// timing, labels and counters, and the same agent id.
pub open spec fn carries(g: AgentGroup, f: AgentGroup) -> bool {
    &&& g.row.agent_id == f.row.agent_id
    &&& g.row.lane_index == f.row.lane_index
    &&& g.sessions@ == f.sessions@
    &&& g.last_at == f.last_at
    &&& g.lane_label == f.lane_label
    &&& g.harness_label == f.harness_label
    &&& g.visible_tasks == f.visible_tasks
    &&& g.hidden == f.hidden
    &&& g.overflow == f.overflow
}

/// A folded group is matched onto a projection agent by trimmed id.
pub open spec fn matches_agent(g: AgentGroup, agent: HostAgentRow) -> bool {
    trimmed(g.row.agent_id@) == trimmed(agent.agent_id@)
}

/// The first still-unplaced folded group that matches `agent`, if any.
pub open spec fn first_match(folded: Seq<Option<AgentGroup>>, agent: HostAgentRow, k: int) -> bool {
    &&& 0 <= k < folded.len()
    &&& folded[k] is Some
    &&& matches_agent(folded[k]->0, agent)
    &&& forall|j: int|
        0 <= j < k ==> !(#[trigger] folded[j] is Some && matches_agent(folded[j]->0, agent))
}

/// One agent of the tree, with its folded lane taken if it has one.
///
/// The group keeps whatever the lane contributed and takes its host and its
/// projection record from the tree; an agent with no lane gets an empty group.
pub fn placed_agent(
    agent: &HostAgentRow,
    host_id: &str,
    folded: &mut Vec<Option<AgentGroup>>,
) -> (g: AgentGroup)
    ensures
        g.row.host_id@ == host_id@,
        g.row.agent == Some(*agent),
        final(folded)@.len() == old(folded)@.len(),
        (exists|k: int| first_match(old(folded)@, *agent, k)) ==> exists|k: int|
            first_match(old(folded)@, *agent, k) && carries(g, old(folded)@[k]->0)
                && final(folded)@ == old(folded)@.update(k, None),
        !(exists|k: int| first_match(old(folded)@, *agent, k)) ==> {
            &&& final(folded)@ == old(folded)@
            &&& g.row.agent_id@ == agent.agent_id@
            &&& g.row.lane_index is None
            &&& g.sessions@.len() == 0
            &&& g.last_at == 0
            &&& g.lane_label is None
            &&& g.harness_label is None
            &&& g.visible_tasks == 0
            &&& g.hidden == 0
            &&& !g.overflow
        },
        forall|j: int|
            0 <= j < old(folded)@.len() && old(folded)@[j] is Some && !matches_agent(
                old(folded)@[j]->0,
                *agent,
            ) ==> #[trigger] final(folded)@[j] == old(folded)@[j],
        forall|j: int|
            0 <= j < old(folded)@.len() && old(folded)@[j] is None ==> #[trigger] final(folded)@[j]
                is None,
{
    let mut k: usize = 0;
    while k < folded.len()
        invariant
            0 <= k <= folded@.len(),
            folded@ == old(folded)@,
            forall|j: int|
                0 <= j < k ==> !(#[trigger] folded@[j] is Some && matches_agent(folded@[j]->0, *agent)),
        decreases folded@.len() - k,
    {
        let hit = match &folded[k] {
            Some(group) => trimmed_eq(group.row.agent_id.as_str(), agent.agent_id.as_str()),
            None => false,
        };
        if hit {
            let taken = folded.remove(k);
            folded.insert(k, None);
            assert(folded@ =~= old(folded)@.update(k as int, None));
            assert(first_match(old(folded)@, *agent, k as int));
            let mut group = taken.unwrap();
            group.row.host_id = to_string(host_id);
            group.row.agent = Some(agent.clone_row());
            return group;
        }
        k += 1;
    }
    proof {
        if exists|j: int| first_match(old(folded)@, *agent, j) {
            let j = choose|j: int| first_match(old(folded)@, *agent, j);
            assert(!(folded@[j] is Some && matches_agent(folded@[j]->0, *agent)));
        }
    }
    AgentGroup {
        row: AgentRailRow {
            agent_id: agent.agent_id.clone(),
            host_id: to_string(host_id),
            agent: Some(agent.clone_row()),
            lane_index: None,
        },
        sessions: Vec::new(),
        last_at: 0,
        lane_label: None,
        harness_label: None,
        visible_tasks: 0,
        hidden: 0,
        overflow: false,
    }
}

impl HostAgentRow {
    /// A copy of this row.
    pub fn clone_row(&self) -> (r: Self)
        ensures
            r == *self,
    {
        HostAgentRow { agent_id: self.agent_id.clone(), label: self.label.clone() }
    }
}

} // verus!

verus! {

/// `d` locates a group carrying `f` among `hosts`.
pub open spec fn located(hosts: Seq<HostGroup>, f: AgentGroup, d: (int, int)) -> bool {
    &&& 0 <= d.0 < hosts.len()
    &&& 0 <= d.1 < hosts[d.0].agents@.len()
    &&& carries(hosts[d.0].agents@[d.1], f)
}

/// Host `h` is the rail's copy of tree host `t`, with `t`'s agents first, in
/// order, each placed on it.
pub open spec fn mirrors(h: HostGroup, t: HostRow) -> bool {
    &&& h.row.host_id@ == t.id@
    &&& h.row.label@ == t.label@
    &&& h.row.local == (t.kind == HostKind::Local)
    &&& h.agents@.len() >= t.agents@.len()
    &&& forall|j: int|
        0 <= j < t.agents@.len() ==> (#[trigger] h.agents@[j]).row.agent == Some(t.agents@[j])
            && h.agents@[j].row.host_id@ == t.id@
}

/// Some group among `hosts` carries `f`.
pub open spec fn is_carried(hosts: Seq<HostGroup>, f: AgentGroup) -> bool {
    exists|d: (int, int)| located(hosts, f, d)
}

/// The label of a host the tree does not know.
pub open spec fn unplaced_label() -> Seq<char> {
    seq!['u', 'n', 'p', 'l', 'a', 'c', 'e', 'd']
}

fn unplaced_label_string() -> (s: String)
    ensures
        s@ == unplaced_label(),
{
    let mut s = String::new();
    crate::text::string_push(&mut s, 'u');
    crate::text::string_push(&mut s, 'n');
    crate::text::string_push(&mut s, 'p');
    crate::text::string_push(&mut s, 'l');
    crate::text::string_push(&mut s, 'a');
    crate::text::string_push(&mut s, 'c');
    crate::text::string_push(&mut s, 'e');
    crate::text::string_push(&mut s, 'd');
    assert(s@ =~= unplaced_label());
    s
}

/// `i` is the first host of `tree` whose id, trimmed, is `host_id` trimmed.
pub open spec fn first_named(tree: Seq<HostRow>, host_id: Seq<char>, i: int) -> bool {
    &&& 0 <= i < tree.len()
    &&& trimmed(tree[i].id@) == trimmed(host_id)
    &&& forall|j: int| 0 <= j < i ==> trimmed(#[trigger] tree[j].id@) != trimmed(host_id)
}

/// `host_id` names a host of `tree`.
pub open spec fn names_tree_host(tree: Seq<HostRow>, host_id: Seq<char>) -> bool {
    &&& trimmed(host_id).len() > 0
    &&& exists|i: int| 0 <= i < tree.len() && trimmed(#[trigger] tree[i].id@) == trimmed(host_id)
}

/// Some agent of `tree` is the one lane `f` belongs to.
pub open spec fn tree_knows(tree: Seq<HostRow>, f: AgentGroup) -> bool {
    exists|h: int, a: int|
        0 <= h < tree.len() && 0 <= a < tree[h].agents@.len() && #[trigger] matches_agent(
            f,
            tree[h].agents@[a],
        )
}

/// Where some host's id matches, a first one does.
proof fn lemma_first_host_match(hosts: Seq<HostGroup>, h: Seq<char>, i: int)
    requires
        0 <= i < hosts.len(),
        trimmed(hosts[i].row.host_id@) == trimmed(h),
    ensures
        exists|k: int|
            0 <= k <= i && trimmed(hosts[k].row.host_id@) == trimmed(h) && forall|j: int|
                0 <= j < k ==> trimmed(#[trigger] hosts[j].row.host_id@) != trimmed(h),
    decreases i,
{
    if exists|j: int| 0 <= j < i && trimmed(#[trigger] hosts[j].row.host_id@) == trimmed(h) {
        let j = choose|j: int| 0 <= j < i && trimmed(#[trigger] hosts[j].row.host_id@) == trimmed(h);
        lemma_first_host_match(hosts, h, j);
    } else {
        assert(forall|j: int| 0 <= j < i ==> trimmed(#[trigger] hosts[j].row.host_id@) != trimmed(h));
    }
}

/// Hang a lane the tree does not know on the host it names, else on this
/// machine, else on an `unplaced` host of its own; answers where it went.
#[verifier::rlimit(50)]
fn hang_unplaced(hosts: &mut Vec<HostGroup>, group: AgentGroup, tree: &[HostRow]) -> (d: (usize, usize))
    requires
        old(hosts)@.len() >= tree@.len(),
        forall|h: int| 0 <= h < tree@.len() ==> mirrors(#[trigger] old(hosts)@[h], tree@[h]),
        forall|h: int|
            tree@.len() <= h < old(hosts)@.len() ==> (#[trigger] old(hosts)@[h]).row.label@
                == unplaced_label() && !old(hosts)@[h].row.local && old(hosts)@[h].agents@.len() > 0,
    ensures
        final(hosts)@.len() >= tree@.len(),
        forall|h: int| 0 <= h < tree@.len() ==> mirrors(#[trigger] final(hosts)@[h], tree@[h]),
        forall|h: int|
            tree@.len() <= h < final(hosts)@.len() ==> (#[trigger] final(hosts)@[h]).row.label@
                == unplaced_label() && !final(hosts)@[h].row.local && final(hosts)@[h].agents@.len()
                > 0,
        located(final(hosts)@, group, (d.0 as int, d.1 as int)),
        forall|dd: (int, int), f: AgentGroup|
            #[trigger] located(old(hosts)@, f, dd) ==> located(final(hosts)@, f, dd),
        names_tree_host(tree@, group.row.host_id@) ==> first_named(tree@, group.row.host_id@, d.0 as int),
{
    assert(names_tree_host(tree@, group.row.host_id@) ==> (spec_unplaced_host(
        hosts@,
        group.row.host_id@,
    ) is Some && first_named(tree@, group.row.host_id@, spec_unplaced_host(hosts@, group.row.host_id@)->0)))
        by {
        if names_tree_host(tree@, group.row.host_id@) {
            let hid = group.row.host_id@;
            let i = choose|i: int| 0 <= i < tree@.len() && trimmed(#[trigger] tree@[i].id@) == trimmed(hid);
            assert(mirrors(hosts@[i], tree@[i]));
            lemma_first_host_match(hosts@, hid, i);
            let c = choose|k: int|
                0 <= k < hosts@.len() && trimmed(hosts@[k].row.host_id@) == trimmed(hid) && forall|j: int|
                    0 <= j < k ==> trimmed(#[trigger] hosts@[j].row.host_id@) != trimmed(hid);
            assert(spec_unplaced_host(hosts@, hid) == Some(c));
            assert(c <= i) by {
                if c > i {
                    assert(trimmed(hosts@[i].row.host_id@) != trimmed(hid));
                }
            }
            assert forall|j: int| 0 <= j < c implies trimmed(#[trigger] tree@[j].id@) != trimmed(hid) by {
                assert(mirrors(hosts@[j], tree@[j]));
                assert(trimmed(hosts@[j].row.host_id@) != trimmed(hid));
            }
            assert(mirrors(hosts@[c], tree@[c]));
            assert(first_named(tree@, hid, c));
        }
    }
    let ghost named = names_tree_host(tree@, group.row.host_id@);
    let hosts_len = hosts.len();
    let ghost hid = group.row.host_id@;
    match unplaced_host(hosts.as_slice(), group.row.host_id.as_str()) {
        Some(idx) => {
            proof {
                if named {
                    let c = spec_unplaced_host(hosts@, hid)->0;
                    assert(0 <= c < tree@.len());
                    assert(c < hosts_len);
                    assert(idx as int == c);
                }
            }
            let ghost old_hosts = hosts@;
            let mut h = hosts.remove(idx);
            let ghost old_h = h;
            let at = h.agents.len();
            h.agents.push(group);
            hosts.insert(idx, h);
            proof {
                assert(hosts@ == old_hosts.update(idx as int, h));
                assert forall|dd: (int, int), f: AgentGroup|
                    #[trigger] located(old_hosts, f, dd) implies located(hosts@, f, dd) by {
                    if dd.0 == idx {
                        assert(hosts@[dd.0].agents@[dd.1] == old_h.agents@[dd.1]);
                    }
                }
                assert forall|t: int| 0 <= t < tree@.len() implies mirrors(#[trigger] hosts@[t], tree@[t]) by {
                    if t == idx {
                        assert(mirrors(old_hosts[t], tree@[t]));
                        assert forall|j: int| 0 <= j < tree@[t].agents@.len() implies (#[trigger] hosts@[t].agents@[j]).row.agent == Some(tree@[t].agents@[j])
                            && hosts@[t].agents@[j].row.host_id@ == tree@[t].id@ by {
                            assert(hosts@[t].agents@[j] == old_h.agents@[j]);
                        }
                    }
                }
            }
            (idx, at)
        },
        None => {
            assert(!named);
            let ghost old_hosts = hosts@;
            let row = HostRailRow {
                host_id: group.row.host_id.clone(),
                label: unplaced_label_string(),
                local: false,
            };
            let mut agents: Vec<AgentGroup> = Vec::new();
            agents.push(group);
            let at = hosts.len();
            hosts.push(HostGroup { row, agents });
            proof {
                assert forall|dd: (int, int), f: AgentGroup|
                    #[trigger] located(old_hosts, f, dd) implies located(hosts@, f, dd) by {
                    assert(hosts@[dd.0] == old_hosts[dd.0]);
                }
            }
            (at, 0)
        },
    }
}

/// Place the folded lanes onto the shared `Host → Agent` tree.
///
/// The tree decides what exists and in what order: every host of the tree
/// becomes a host group listing the tree's agents first, each with its folded
/// lane taken when it has one. A lane the tree does not know keeps a row of its
/// own, under the host it names, else under this machine, else under an
/// `unplaced` host of its own — so no folded lane is ever dropped.
pub fn place_agents(tree: &[HostRow], folded: Vec<AgentGroup>) -> (r: Vec<HostGroup>)
    ensures
        r@.len() >= tree@.len(),
        forall|i: int| 0 <= i < tree@.len() ==> mirrors(#[trigger] r@[i], tree@[i]),
        forall|i: int|
            tree@.len() <= i < r@.len() ==> (#[trigger] r@[i]).row.label@ == unplaced_label()
                && !r@[i].row.local && r@[i].agents@.len() > 0,
        forall|f: int|
            0 <= f < folded@.len() ==> #[trigger] is_carried(r@, folded@[f]),
        forall|f: int|
            0 <= f < folded@.len() && !tree_knows(tree@, #[trigger] folded@[f]) && names_tree_host(
                tree@,
                folded@[f].row.host_id@,
            ) ==> exists|d: (int, int)|
                located(r@, folded@[f], d) && first_named(tree@, folded@[f].row.host_id@, d.0),
{
    let ghost input = folded@;
    let n = folded.len();
    let mut rest = folded;
    let mut slots: Vec<Option<AgentGroup>> = Vec::new();
    let mut m: usize = 0;
    while m < n
        invariant
            n == input.len(),
            0 <= m <= n,
            rest@ == input.subrange(m as int, n as int),
            slots@.len() == m,
            forall|f: int| 0 <= f < m ==> #[trigger] slots@[f] == Some(input[f]),
        decreases n - m,
    {
        let g = rest.remove(0);
        slots.push(Some(g));
        m += 1;
    }
    let mut hosts: Vec<HostGroup> = Vec::new();
    let ghost mut dest: Seq<(int, int)> = Seq::new(n as nat, |f: int| (0int, 0int));
    let mut i: usize = 0;
    while i < tree.len()
        invariant
            n == input.len(),
            slots@.len() == n,
            dest.len() == n,
            0 <= i <= tree@.len(),
            hosts@.len() == i,
            forall|h: int| 0 <= h < i ==> mirrors(#[trigger] hosts@[h], tree@[h]),
            forall|f: int| 0 <= f < n && #[trigger] slots@[f] is Some ==> slots@[f] == Some(input[f]),
            forall|f: int| 0 <= f < n && #[trigger] slots@[f] is None ==> located(hosts@, input[f], dest[f]),
            forall|f: int|
                0 <= f < n && (forall|h: int, a: int|
                    0 <= h < i && 0 <= a < tree@[h].agents@.len() ==> !#[trigger] matches_agent(
                        input[f],
                        tree@[h].agents@[a],
                    )) ==> #[trigger] slots@[f] == Some(input[f]),
        decreases tree@.len() - i,
    {
        let host = &tree[i];
        let mut agents: Vec<AgentGroup> = Vec::new();
        let mut j: usize = 0;
        while j < host.agents.len()
            invariant
                n == input.len(),
                slots@.len() == n,
                dest.len() == n,
                hosts@.len() == i,
                0 <= i < tree@.len(),
                *host == tree@[i as int],
                0 <= j <= host.agents@.len(),
                agents@.len() == j,
                forall|a: int|
                    0 <= a < j ==> (#[trigger] agents@[a]).row.agent == Some(host.agents@[a])
                        && agents@[a].row.host_id@ == host.id@,
                forall|h: int| 0 <= h < i ==> mirrors(#[trigger] hosts@[h], tree@[h]),
                forall|f: int| 0 <= f < n && #[trigger] slots@[f] is Some ==> slots@[f] == Some(input[f]),
                forall|f: int|
                    0 <= f < n && #[trigger] slots@[f] is None ==> (located(hosts@, input[f], dest[f])
                        || (dest[f].0 == i && 0 <= dest[f].1 < agents@.len() && carries(
                        agents@[dest[f].1],
                        input[f],
                    ))),
                forall|f: int|
                    0 <= f < n && (forall|h: int, a: int|
                        ((0 <= h < i && 0 <= a < tree@[h].agents@.len()) || (h == i && 0 <= a < j))
                            ==> !#[trigger] matches_agent(input[f], tree@[h].agents@[a])) ==> #[trigger] slots@[f]
                        == Some(input[f]),
            decreases host.agents@.len() - j,
        {
            let ghost before = slots@;
            let g = placed_agent(&host.agents[j], host.id.as_str(), &mut slots);
            proof {
                if exists|k: int| first_match(before, host.agents@[j as int], k) {
                    let k = choose|k: int|
                        first_match(before, host.agents@[j as int], k) && carries(g, before[k]->0)
                            && slots@ == before.update(k, None);
                    dest = dest.update(k, (i as int, j as int));
                    assert forall|f: int| 0 <= f < n && #[trigger] slots@[f] is None implies (located(
                        hosts@,
                        input[f],
                        dest[f],
                    ) || (dest[f].0 == i && 0 <= dest[f].1 < agents@.len() + 1 && carries(
                        agents@.push(g)[dest[f].1],
                        input[f],
                    ))) by {
                        if f != k {
                            assert(before[f] is None);
                        }
                    }
                } else {
                    assert(slots@ == before);
                }
            }
            agents.push(g);
            j += 1;
        }
        let row = HostRailRow {
            host_id: host.id.clone(),
            label: host.label.clone(),
            local: match host.kind {
                HostKind::Local => true,
                HostKind::Remote => false,
            },
        };
        hosts.push(HostGroup { row, agents });
        proof {
            assert forall|f: int| 0 <= f < n && #[trigger] slots@[f] is None implies located(
                hosts@,
                input[f],
                dest[f],
            ) by {
                let d = dest[f];
                if d.0 < i {
                    assert(hosts@[d.0] == hosts@.drop_last()[d.0]);
                }
            }
        }
        i += 1;
    }
    assert forall|g: int| 0 <= g < n && !tree_knows(tree@, #[trigger] input[g]) implies slots@[g] == Some(
        input[g],
    ) by {
        assert forall|h: int, a: int|
            0 <= h < tree@.len() && 0 <= a < tree@[h].agents@.len() implies !#[trigger] matches_agent(
                input[g],
                tree@[h].agents@[a],
            ) by {
            if matches_agent(input[g], tree@[h].agents@[a]) {
                assert(tree_knows(tree@, input[g]));
            }
        }
    }
    let mut f: usize = 0;
    while f < n
        invariant
            n == input.len(),
            slots@.len() == n,
            dest.len() == n,
            0 <= f <= n,
            hosts@.len() >= tree@.len(),
            forall|h: int| 0 <= h < tree@.len() ==> mirrors(#[trigger] hosts@[h], tree@[h]),
            forall|h: int|
                tree@.len() <= h < hosts@.len() ==> (#[trigger] hosts@[h]).row.label@
                    == unplaced_label() && !hosts@[h].row.local && hosts@[h].agents@.len() > 0,
            forall|g: int| 0 <= g < n && #[trigger] slots@[g] is Some ==> slots@[g] == Some(input[g]),
            forall|g: int| 0 <= g < f ==> #[trigger] slots@[g] is None,
            forall|g: int| 0 <= g < n && #[trigger] slots@[g] is None ==> located(hosts@, input[g], dest[g]),
            forall|g: int|
                f <= g < n && !tree_knows(tree@, #[trigger] input[g]) ==> slots@[g] == Some(input[g]),
            forall|g: int|
                0 <= g < f && !tree_knows(tree@, #[trigger] input[g]) && names_tree_host(
                    tree@,
                    input[g].row.host_id@,
                ) ==> first_named(tree@, input[g].row.host_id@, dest[g].0),
        decreases n - f,
    {
        let ghost old_slots = slots@;
        let taken = slots.remove(f);
        slots.insert(f, None);
        assert(slots@ == old_slots.update(f as int, None));
        let ghost old_hosts = hosts@;
        if let Some(group) = taken {
            let d = hang_unplaced(&mut hosts, group, tree);
            proof {
                dest = dest.update(f as int, (d.0 as int, d.1 as int));
                assert forall|g: int| 0 <= g < n && #[trigger] slots@[g] is None implies located(
                    hosts@,
                    input[g],
                    dest[g],
                ) by {
                    if g != f {
                        assert(old_slots[g] is None);
                        let dd = dest[g];
                        assert(located(old_hosts, input[g], dd));
                    }
                }
            }
        }
        f += 1;
    }
    proof {
        assert(input == folded@);
        assert forall|g: int| 0 <= g < n implies exists|d: (int, int)| located(hosts@, #[trigger] input[g], d) by {
            assert(slots@[g] is None);
            assert(located(hosts@, input[g], dest[g]));
        }
        assert forall|g: int|
            0 <= g < folded@.len() && !tree_knows(tree@, #[trigger] folded@[g]) && names_tree_host(
                tree@,
                folded@[g].row.host_id@,
            ) implies exists|d: (int, int)|
            located(hosts@, folded@[g], d) && first_named(tree@, folded@[g].row.host_id@, d.0) by {
            assert(input[g] == folded@[g]);
            assert(slots@[g] is None);
            assert(located(hosts@, input[g], dest[g]));
        }
        assert forall|g: int| 0 <= g < folded@.len() implies #[trigger] is_carried(hosts@, folded@[g]) by {
            assert(input[g] == folded@[g]);
            assert(slots@[g] is None);
            assert(located(hosts@, input[g], dest[g]));
        }
    }
    hosts
}

} // verus!

verus! {

/// The mathematical value of an agent group: its sessions as a sequence.
pub struct GroupView {
    /// See [`AgentGroup::row`].
    pub row: AgentRailRow,
    /// See [`AgentGroup::sessions`].
    pub sessions: Seq<SessionRailRow>,
    /// See [`AgentGroup::last_at`].
    pub last_at: i64,
    /// See [`AgentGroup::lane_label`].
    pub lane_label: Option<String>,
    /// See [`AgentGroup::harness_label`].
    pub harness_label: Option<String>,
    /// See [`AgentGroup::visible_tasks`].
    pub visible_tasks: usize,
    /// See [`AgentGroup::hidden`].
    pub hidden: usize,
    /// See [`AgentGroup::overflow`].
    pub overflow: bool,
}

impl View for AgentGroup {
    type V = GroupView;

    open spec fn view(&self) -> GroupView {
        GroupView {
            row: self.row,
            sessions: self.sessions@,
            last_at: self.last_at,
            lane_label: self.lane_label,
            harness_label: self.harness_label,
            visible_tasks: self.visible_tasks,
            hidden: self.hidden,
            overflow: self.overflow,
        }
    }
}

/// The views of a list of groups.
pub open spec fn group_views(gs: Seq<AgentGroup>) -> Seq<GroupView> {
    gs.map_values(|g: AgentGroup| g@)
}

/// The first group from `k` on whose agent is `agent_id`, ids compared
/// trimmed.
pub open spec fn agent_group_from(gs: Seq<GroupView>, agent_id: Seq<char>, k: int) -> Option<int>
    decreases gs.len() - k,
{
    if k < 0 || k >= gs.len() {
        None
    } else if trimmed(gs[k].row.agent_id@) == trimmed(agent_id) {
        Some(k)
    } else {
        agent_group_from(gs, agent_id, k + 1)
    }
}

/// The group a session resolved to agent `agent_id` joins: the first group
/// of that agent, when it resolved to one.
pub open spec fn agent_group(gs: Seq<GroupView>, agent_id: Option<String>) -> Option<int> {
    match agent_id {
        Some(a) => agent_group_from(gs, a@, 0),
        None => None,
    }
}

/// Whether the lookup chose `merge` for the session `session_id`: the first
/// merge target in group order whose task it says `session_id` serves, every
/// earlier target said not to be; or none, every target said not to be.
pub open spec fn merge_ok<F: Fn(&str) -> Option<String>>(
    gs: Seq<GroupView>,
    session_id: Seq<char>,
    served: F,
    merge: Option<(int, int)>,
) -> bool {
    &&& match merge {
        Some((g, s)) => {
            &&& 0 <= g < gs.len()
            &&& 0 <= s < gs[g].sessions.len()
            &&& is_merge_target(gs[g].sessions[s])
            &&& observed_serving(served, gs[g].sessions[s].task->0.task_id@, session_id, true)
        },
        None => true,
    }
    &&& forall|g: int, s: int|
        0 <= g < gs.len() && 0 <= s < gs[g].sessions.len() && (merge is None || before(
            g,
            s,
            (merge->0).0,
            (merge->0).1,
        )) && is_merge_target(#[trigger] gs[g].sessions[s]) ==> observed_serving(
            served,
            gs[g].sessions[s].task->0.task_id@,
            session_id,
            false,
        )
}

/// The session row a live session gets when no task row takes it.
pub open spec fn own_session(gs: Seq<GroupView>, row: SessionRow, agent_id: Option<String>) -> SessionRailRow {
    SessionRailRow {
        agent_id: agent_id,
        lane_index: match agent_group(gs, agent_id) {
            Some(i) => gs[i].row.lane_index,
            None => None,
        },
        task: None,
        local: Some(row),
        last: false,
    }
}

/// Attach one live session: onto the task row `merge` names, else under the
/// first group of the agent it resolved to, else among the unclaimed.
pub open spec fn attach_one(
    gs: Seq<GroupView>,
    orphans: Seq<SessionRailRow>,
    row: SessionRow,
    agent_id: Option<String>,
    merge: Option<(int, int)>,
) -> (Seq<GroupView>, Seq<SessionRailRow>) {
    match merge {
        Some((g, s)) => (
            gs.update(
                g,
                GroupView {
                    sessions: gs[g].sessions.update(
                        s,
                        SessionRailRow { local: Some(row), ..gs[g].sessions[s] },
                    ),
                    ..gs[g]
                },
            ),
            orphans,
        ),
        None => {
            let session = own_session(gs, row, agent_id);
            match agent_group(gs, agent_id) {
                Some(i) => (
                    gs.update(i, GroupView { sessions: gs[i].sessions.push(session), ..gs[i] }),
                    orphans,
                ),
                None => (gs, orphans.push(session)),
            }
        },
    }
}

/// The groups and the unclaimed sessions after attaching the first `k` live
/// sessions with the merges `merges`.
pub open spec fn attach_state(
    gs0: Seq<GroupView>,
    rows: Seq<SessionRow>,
    agent_ids: Seq<Option<String>>,
    merges: Seq<Option<(int, int)>>,
    k: nat,
) -> (Seq<GroupView>, Seq<SessionRailRow>)
    decreases k,
{
    if k == 0 {
        (gs0, Seq::empty())
    } else {
        let st = attach_state(gs0, rows, agent_ids, merges, (k - 1) as nat);
        attach_one(st.0, st.1, rows[k - 1], agent_ids[k - 1], merges[k - 1])
    }
}

/// Whether each of the first `k` merges is the one the lookup chose.
pub open spec fn merges_ok<F: Fn(&str) -> Option<String>>(
    gs0: Seq<GroupView>,
    rows: Seq<SessionRow>,
    agent_ids: Seq<Option<String>>,
    served: F,
    merges: Seq<Option<(int, int)>>,
    k: nat,
) -> bool
    decreases k,
{
    if k == 0 {
        true
    } else {
        &&& merges_ok(gs0, rows, agent_ids, served, merges, (k - 1) as nat)
        &&& merge_ok(
            attach_state(gs0, rows, agent_ids, merges, (k - 1) as nat).0,
            rows[k - 1].id@,
            served,
            merges[k - 1],
        )
    }
}

/// The first group of agent `agent_id`, ids compared trimmed.
fn find_agent_group(groups: &Vec<AgentGroup>, agent_id: &Option<String>) -> (r: Option<usize>)
    ensures
        match r {
            Some(i) => agent_group(group_views(groups@), *agent_id) == Some(i as int) && i
                < groups@.len(),
            None => agent_group(group_views(groups@), *agent_id) is None,
        },
{
    let a = match agent_id {
        Some(a) => a,
        None => return None,
    };
    let ghost gs = group_views(groups@);
    let mut i: usize = 0;
    while i < groups.len()
        invariant
            i <= groups@.len(),
            gs == group_views(groups@),
            *agent_id == Some(*a),
            agent_group_from(gs, a@, 0) == agent_group_from(gs, a@, i as int),
        decreases groups@.len() - i,
    {
        assert(gs[i as int] == groups@[i as int]@);
        if trimmed_eq(groups[i].row.agent_id.as_str(), a.as_str()) {
            assert(agent_group_from(gs, a@, i as int) == Some(i as int));
            return Some(i);
        }
        i += 1;
    }
    None
}

/// Attach this device's live sessions to the placed agents `groups`, returning
/// the unclaimed ones.
///
/// A session this device runs for a dispatched task is folded into that
/// task's row, the first row whose task the lookup `served` says the session
/// is serving; rows that already carry a session are never taken. Any other
/// session goes under the first group of the agent `agent_ids` resolved it
/// to, and a session no agent claims is returned rather than dropped: a
/// session running unseen is the failure this listing exists to prevent.
pub fn attach_sessions<F: Fn(&str) -> Option<String>>(
    groups: &mut Vec<AgentGroup>,
    rows: &[SessionRow],
    agent_ids: &[Option<String>],
    served: F,
) -> (orphans: Vec<SessionRailRow>)
    requires
        rows@.len() == agent_ids@.len(),
        forall|t: &str| #[trigger] served.requires((t,)),
    ensures
        exists|merges: Seq<Option<(int, int)>>|
            {
                &&& merges.len() == rows@.len()
                &&& merges_ok(
                    group_views(old(groups)@),
                    rows@,
                    agent_ids@,
                    served,
                    merges,
                    rows@.len(),
                )
                &&& attach_state(group_views(old(groups)@), rows@, agent_ids@, merges, rows@.len())
                    == (group_views(final(groups)@), orphans@)
            },
{
    let ghost gs0 = group_views(groups@);
    let ghost mut merges: Seq<Option<(int, int)>> = Seq::empty();
    let mut orphans: Vec<SessionRailRow> = Vec::new();
    let mut k: usize = 0;
    while k < rows.len()
        invariant
            k <= rows@.len(),
            rows@.len() == agent_ids@.len(),
            forall|t: &str| #[trigger] served.requires((t,)),
            merges.len() == k,
            merges_ok(gs0, rows@, agent_ids@, served, merges, k as nat),
            attach_state(gs0, rows@, agent_ids@, merges, k as nat) == (group_views(groups@), orphans@),
        decreases rows@.len() - k,
    {
        let row = rows[k].cloned();
        let ghost before = group_views(groups@);
        let found = task_row_serving(groups.as_slice(), row.id.as_str(), &served);
        let ghost choice: Option<(int, int)> = match found {
            Some((g, s)) => Some((g as int, s as int)),
            None => None,
        };
        proof {
            assert forall|g: int| 0 <= g < before.len() implies #[trigger] before[g].sessions
                == groups@[g].sessions@ by {}
            assert(merge_ok(before, row.id@, served, choice));
        }
        match found {
            Some((g, s)) => {
                groups[g].sessions[s].local = Some(row);
            },
            None => {
                let agent_id = clone_opt(&agent_ids[k]);
                let target = find_agent_group(groups, &agent_id);
                let lane_index = match target {
                    Some(i) => groups[i].row.lane_index,
                    None => None,
                };
                let session = SessionRailRow {
                    agent_id,
                    lane_index,
                    task: None,
                    local: Some(row),
                    last: false,
                };
                match target {
                    Some(i) => groups[i].sessions.push(session),
                    None => orphans.push(session),
                }
            },
        }
        proof {
            let next = merges.push(choice);
            assert(next.take(k as int) =~= merges);
            assert(merges.take(k as int) =~= merges);
            lemma_attach_prefix(gs0, rows@, agent_ids@, merges, next, k as nat);
            lemma_merges_prefix(gs0, rows@, agent_ids@, served, merges, next, k as nat);
            merges = next;
            assert(group_views(groups@) =~= attach_one(before, attach_state(gs0, rows@, agent_ids@, next, k as nat).1, rows@[k as int], agent_ids@[k as int], choice).0);
        }
        k += 1;
    }
    orphans
}

/// Whether the merges were the lookup's choices depends only on the merges
/// made so far.
proof fn lemma_merges_prefix<F: Fn(&str) -> Option<String>>(
    gs0: Seq<GroupView>,
    rows: Seq<SessionRow>,
    agent_ids: Seq<Option<String>>,
    served: F,
    a: Seq<Option<(int, int)>>,
    b: Seq<Option<(int, int)>>,
    k: nat,
)
    requires
        k <= a.len(),
        k <= b.len(),
        a.take(k as int) == b.take(k as int),
        merges_ok(gs0, rows, agent_ids, served, a, k),
    ensures
        merges_ok(gs0, rows, agent_ids, served, b, k),
    decreases k,
{
    if k > 0 {
        assert(a.take(k - 1) =~= a.take(k as int).take(k - 1));
        assert(b.take(k - 1) =~= b.take(k as int).take(k - 1));
        assert(a[k - 1] == a.take(k as int)[k - 1]);
        assert(b[k - 1] == b.take(k as int)[k - 1]);
        lemma_merges_prefix(gs0, rows, agent_ids, served, a, b, (k - 1) as nat);
        lemma_attach_prefix(gs0, rows, agent_ids, a, b, (k - 1) as nat);
    }
}

/// A state depends only on the merges made so far.
proof fn lemma_attach_prefix(
    gs0: Seq<GroupView>,
    rows: Seq<SessionRow>,
    agent_ids: Seq<Option<String>>,
    a: Seq<Option<(int, int)>>,
    b: Seq<Option<(int, int)>>,
    k: nat,
)
    requires
        k <= a.len(),
        k <= b.len(),
        a.take(k as int) == b.take(k as int),
    ensures
        attach_state(gs0, rows, agent_ids, a, k) == attach_state(gs0, rows, agent_ids, b, k),
    decreases k,
{
    if k > 0 {
        assert(a.take(k - 1) =~= a.take(k as int).take(k - 1));
        assert(b.take(k - 1) =~= b.take(k as int).take(k - 1));
        assert(a[k - 1] == a.take(k as int)[k - 1]);
        assert(b[k - 1] == b.take(k as int)[k - 1]);
        lemma_attach_prefix(gs0, rows, agent_ids, a, b, (k - 1) as nat);
    }
}


/// The group of an agent is one of the groups.
proof fn lemma_agent_group_in_range(gs: Seq<GroupView>, a: Seq<char>, k: int)
    ensures
        agent_group_from(gs, a, k) matches Some(i) ==> 0 <= k <= i < gs.len(),
    decreases gs.len() - k,
{
    if 0 <= k < gs.len() && trimmed(gs[k].row.agent_id@) != trimmed(a) {
        lemma_agent_group_in_range(gs, a, k + 1);
    }
}

/// Whether some session of the rail state `st` — under an agent, or
/// unclaimed — carries the live session `row`.
pub open spec fn carries_local(st: (Seq<GroupView>, Seq<SessionRailRow>), row: SessionRow) -> bool {
    ||| exists|o: int| 0 <= o < st.1.len() && (#[trigger] st.1[o]).local == Some(row)
    ||| exists|g: int, s: int|
        0 <= g < st.0.len() && 0 <= s < st.0[g].sessions.len() && (#[trigger] st.0[g].sessions[s]).local
            == Some(row)
}

/// Attaching a session keeps every session already on the rail, and puts the
/// new one there too.
proof fn lemma_attach_one_keeps<F: Fn(&str) -> Option<String>>(
    st: (Seq<GroupView>, Seq<SessionRailRow>),
    row: SessionRow,
    agent_id: Option<String>,
    served: F,
    merge: Option<(int, int)>,
    x: SessionRow,
)
    requires
        merge_ok(st.0, row.id@, served, merge),
    ensures
        carries_local(st, x) ==> carries_local(attach_one(st.0, st.1, row, agent_id, merge), x),
        carries_local(attach_one(st.0, st.1, row, agent_id, merge), row),
{
    let next = attach_one(st.0, st.1, row, agent_id, merge);
    if let Some(a) = agent_id {
        lemma_agent_group_in_range(st.0, a@, 0);
    }
    match merge {
        Some((g, s)) => {
            assert(next.0[g].sessions[s].local == Some(row));
            if carries_local(st, x) {
                if exists|o: int| 0 <= o < st.1.len() && (#[trigger] st.1[o]).local == Some(x) {
                    let o = choose|o: int| 0 <= o < st.1.len() && (#[trigger] st.1[o]).local == Some(x);
                    assert(next.1[o].local == Some(x));
                } else {
                    let (g2, s2) = choose|g2: int, s2: int|
                        0 <= g2 < st.0.len() && 0 <= s2 < st.0[g2].sessions.len() && (
                        #[trigger] st.0[g2].sessions[s2]).local == Some(x);
                    assert(!(g2 == g && s2 == s));
                    assert(next.0[g2].sessions[s2] == st.0[g2].sessions[s2]);
                }
            }
        },
        None => {
            match agent_group(st.0, agent_id) {
                Some(i) => {
                    let n = st.0[i].sessions.len() as int;
                    assert(next.0[i].sessions[n].local == Some(row));
                    if carries_local(st, x) {
                        if exists|o: int| 0 <= o < st.1.len() && (#[trigger] st.1[o]).local == Some(x) {
                            let o = choose|o: int|
                                0 <= o < st.1.len() && (#[trigger] st.1[o]).local == Some(x);
                            assert(next.1[o].local == Some(x));
                        } else {
                            let (g2, s2) = choose|g2: int, s2: int|
                                0 <= g2 < st.0.len() && 0 <= s2 < st.0[g2].sessions.len() && (
                                #[trigger] st.0[g2].sessions[s2]).local == Some(x);
                            assert(next.0[g2].sessions[s2] == st.0[g2].sessions[s2]);
                        }
                    }
                },
                None => {
                    assert(next.1[st.1.len() as int].local == Some(row));
                    if carries_local(st, x) {
                        if exists|o: int| 0 <= o < st.1.len() && (#[trigger] st.1[o]).local == Some(x) {
                            let o = choose|o: int|
                                0 <= o < st.1.len() && (#[trigger] st.1[o]).local == Some(x);
                            assert(next.1[o].local == Some(x));
                        } else {
                            let (g2, s2) = choose|g2: int, s2: int|
                                0 <= g2 < st.0.len() && 0 <= s2 < st.0[g2].sessions.len() && (
                                #[trigger] st.0[g2].sessions[s2]).local == Some(x);
                            assert(next.0[g2].sessions[s2] == st.0[g2].sessions[s2]);
                        }
                    }
                },
            }
        },
    }
}

/// No live session is dropped from the rail: after attaching, every one of
/// them is carried by some rail session, folded into its task's row, under
/// its agent, or unclaimed; and every session that already carried a live one
/// still does.
pub proof fn lemma_no_session_dropped<F: Fn(&str) -> Option<String>>(
    gs0: Seq<GroupView>,
    rows: Seq<SessionRow>,
    agent_ids: Seq<Option<String>>,
    served: F,
    merges: Seq<Option<(int, int)>>,
    k: nat,
)
    requires
        k <= rows.len(),
        k <= merges.len(),
        k <= agent_ids.len(),
        merges_ok(gs0, rows, agent_ids, served, merges, k),
    ensures
        forall|j: int| 0 <= j < k ==> carries_local(attach_state(gs0, rows, agent_ids, merges, k), #[trigger] rows[j]),
        forall|x: SessionRow|
            carries_local((gs0, Seq::empty()), x) ==> #[trigger] carries_local(
                attach_state(gs0, rows, agent_ids, merges, k),
                x,
            ),
    decreases k,
{
    if k == 0 {
        assert(attach_state(gs0, rows, agent_ids, merges, 0) == (gs0, Seq::<SessionRailRow>::empty()));
    } else {
        let prev = (k - 1) as nat;
        lemma_no_session_dropped(gs0, rows, agent_ids, served, merges, prev);
        let st = attach_state(gs0, rows, agent_ids, merges, prev);
        let now = attach_state(gs0, rows, agent_ids, merges, k);
        assert forall|x: SessionRow| carries_local(st, x) implies carries_local(now, x) by {
            lemma_attach_one_keeps(st, rows[k - 1], agent_ids[k - 1], served, merges[k - 1], x);
        }
        assert forall|x: SessionRow| carries_local((gs0, Seq::empty()), x) implies #[trigger] carries_local(
            now,
            x,
        ) by {
            assert(carries_local(st, x));
        }
        lemma_attach_one_keeps(st, rows[k - 1], agent_ids[k - 1], served, merges[k - 1], rows[k - 1]);
        assert forall|j: int| 0 <= j < k implies carries_local(now, #[trigger] rows[j]) by {
            if j < k - 1 {
                assert(carries_local(st, rows[j]));
            }
        }
    }
}

} // verus!
