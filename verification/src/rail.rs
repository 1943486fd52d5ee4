//! The Agents rail: one cursor over the lanes and the operator's own harnesses.
//!
//! The rail is rebuilt from live state every frame, so a cursor stored as a
//! plain row offset would point at a different row the moment anything above
//! it appears. The cursor is therefore remembered by identity ([`RailAnchor`])
//! and its offset is re-derived each time the rows are rebuilt.

use vstd::prelude::*;

use crate::sort::{stable_sort, stably_sorted, Comparator};
use crate::text::str_eq;

verus! {

/// What a lane is for.
#[derive(Debug, Clone, Copy, PartialEq, Eq, Structural)]
pub enum AgentRole {
    /// The conversation with the orchestrator.
    Orchestrator,
    /// An agent the orchestrator dispatched work to.
    Agent,
    /// A function lane: tool traffic folded out of the conversation.
    Function,
}

/// Where a dispatched task stands.
#[derive(Debug, Clone, Copy, PartialEq, Eq, Structural)]
pub enum TaskStatus {
    /// Still executing.
    Running,
    /// Finished successfully.
    Done,
    /// Finished with an error.
    Failed,
}

/// One task folded under an agent lane.
#[derive(Debug, Clone)]
pub struct TaskState {
    /// The task's id.
    pub task_id: String,
    /// Where it stands.
    pub status: TaskStatus,
    /// How many turns it has taken.
    pub turns: u64,
    /// When it last did anything (milliseconds).
    pub last_at: i64,
}

impl TaskState {
    /// An identical, independently owned task state.
    pub fn cloned(&self) -> (r: Self)
        ensures
            r == *self,
    {
        TaskState {
            task_id: self.task_id.clone(),
            status: self.status,
            turns: self.turns,
            last_at: self.last_at,
        }
    }
}

/// One lane of the event fold.
#[derive(Debug, Clone)]
pub struct AgentLane {
    /// The identity that survives the lane list growing.
    pub key: String,
    /// What the lane is called on screen.
    pub label: String,
    /// What the lane is for.
    pub role: AgentRole,
    /// When the lane last saw traffic (milliseconds).
    pub last_at: i64,
    /// The tasks folded under it.
    pub tasks: Vec<TaskState>,
    /// The harness the lane's agent runs, when reported.
    pub harness_label: Option<String>,
    /// The roster id the hub filed the lane's tasks under.
    pub agent_id: Option<String>,
    /// The host the lane's descriptor names, when it has one.
    pub host_id: Option<String>,
}

/// One row of the lane list.
#[derive(Debug, Clone)]
pub enum AgentRow {
    /// A lane header, by index into the lane list it was built from.
    Lane { lane_index: usize },
    /// A task sublane under a lane.
    Sub { lane_index: usize, task: TaskState, last: bool },
    /// The `+N more` counter under a lane whose tasks overflow.
    More { lane_index: usize, hidden: usize },
    /// The lane list's own divider.
    Separator,
}

impl AgentRow {
    /// A copy of this row.
    pub fn cloned(&self) -> (r: Self)
        ensures
            r == *self,
    {
        match self {
            AgentRow::Lane { lane_index } => AgentRow::Lane { lane_index: *lane_index },
            AgentRow::Sub { lane_index, task, last } => AgentRow::Sub {
                lane_index: *lane_index,
                task: task.cloned(),
                last: *last,
            },
            AgentRow::More { lane_index, hidden } => AgentRow::More {
                lane_index: *lane_index,
                hidden: *hidden,
            },
            AgentRow::Separator => AgentRow::Separator,
        }
    }

    /// Whether the cursor may land on this row: lanes and sublanes, not labels.
    pub open spec fn spec_selectable(&self) -> bool {
        self is Lane || self is Sub
    }

    /// Whether the cursor may land on this row.
    pub fn selectable(&self) -> (r: bool)
        ensures
            r == self.spec_selectable(),
    {
        match self {
            AgentRow::Lane { .. } => true,
            AgentRow::Sub { .. } => true,
            AgentRow::More { .. } => false,
            AgentRow::Separator => false,
        }
    }
}

/// Who is driving a harness session.
#[derive(Debug, Clone, Copy, PartialEq, Eq, Structural)]
pub enum HarnessControl {
    /// The orchestrator dispatches into it.
    Orchestrator,
    /// The operator drives it by hand.
    User,
}

/// One live PTY session on this device.
#[derive(Debug, Clone)]
pub struct SessionRow {
    /// The local session id.
    pub id: String,
    /// What the session is called.
    pub label: String,
    /// The directory it runs in.
    pub cwd: String,
    /// When it started (milliseconds).
    pub started_at: i64,
    /// When it last produced output (milliseconds).
    pub last_output_at: i64,
    /// Who drives it.
    pub control: HarnessControl,
    /// Whether the operator started it.
    pub user_spawned: bool,
}

impl SessionRow {
    /// A copy of this row.
    pub fn cloned(&self) -> (r: Self)
        ensures
            r == *self,
    {
        SessionRow {
            id: self.id.clone(),
            label: self.label.clone(),
            cwd: self.cwd.clone(),
            started_at: self.started_at,
            last_output_at: self.last_output_at,
            control: self.control,
            user_spawned: self.user_spawned,
        }
    }
}

/// One row of the Agents rail.
#[derive(Debug, Clone)]
pub enum RailRow {
    /// A lane, task sublane, or lane-list divider.
    Agent(AgentRow),
    /// The action row that starts a harness of the operator's own.
    NewHarness,
    /// The divider above the operator's own sessions.
    HarnessSeparator,
    /// A harness the operator started, which no lane will ever describe.
    Harness(SessionRow),
}

impl RailRow {
    /// Whether the cursor may land on this row.
    pub open spec fn spec_selectable(&self) -> bool {
        match self {
            RailRow::Agent(row) => row.spec_selectable(),
            RailRow::NewHarness => true,
            RailRow::HarnessSeparator => false,
            RailRow::Harness(_) => true,
        }
    }

    /// The PTY session this row names directly, if any.
    pub open spec fn spec_session_id(&self) -> Option<Seq<char>> {
        match self {
            RailRow::Harness(row) => Some(row.id@),
            _ => None,
        }
    }

    /// Whether the cursor may land on this row.
    pub fn selectable(&self) -> (r: bool)
        ensures
            r == self.spec_selectable(),
    {
        match self {
            RailRow::Agent(row) => row.selectable(),
            RailRow::NewHarness => true,
            RailRow::HarnessSeparator => false,
            RailRow::Harness(_) => true,
        }
    }

    /// The PTY session this row names, when it names one directly.
    pub fn session_id(&self) -> (r: Option<&str>)
        ensures
            r is Some <==> self.spec_session_id() is Some,
            r is Some ==> r->0@ == self.spec_session_id()->0,
    {
        match self {
            RailRow::Harness(row) => Some(row.id.as_str()),
            _ => None,
        }
    }

    /// Whether this row is the "start a harness" action.
    pub fn is_new_harness(&self) -> (r: bool)
        ensures
            r == (self is NewHarness),
    {
        match self {
            RailRow::NewHarness => true,
            _ => false,
        }
    }
}

/// What the rail cursor is *on*, independent of where that row currently sits.
#[derive(Debug, Clone, PartialEq, Eq)]
pub enum RailAnchor {
    /// The `+ New harness` action row.
    NewHarness,
    /// One of the operator's own harnesses, by PTY session id.
    Harness(String),
    /// A lane header, by lane key.
    Lane(String),
    /// A task sublane, by owning lane key and task id.
    Task {
        /// The owning lane's key.
        lane: String,
        /// The task's id.
        task_id: String,
    },
}

/// The mathematical value of a [`RailAnchor`]: its variant and its strings'
/// characters.
pub enum AnchorView {
    /// See [`RailAnchor::NewHarness`].
    NewHarness,
    /// See [`RailAnchor::Harness`].
    Harness(Seq<char>),
    /// See [`RailAnchor::Lane`].
    Lane(Seq<char>),
    /// See [`RailAnchor::Task`].
    Task(Seq<char>, Seq<char>),
}

impl View for RailAnchor {
    type V = AnchorView;

    open spec fn view(&self) -> AnchorView {
        match self {
            RailAnchor::NewHarness => AnchorView::NewHarness,
            RailAnchor::Harness(id) => AnchorView::Harness(id@),
            RailAnchor::Lane(key) => AnchorView::Lane(key@),
            RailAnchor::Task { lane, task_id } => AnchorView::Task(lane@, task_id@),
        }
    }
}

/// The identity of `row`, when it is one the cursor can hold, against the lane
/// list the row was built from.
pub open spec fn anchor_of(row: RailRow, lanes: Seq<AgentLane>) -> Option<AnchorView> {
    match row {
        RailRow::NewHarness => Some(AnchorView::NewHarness),
        RailRow::Harness(session) => Some(AnchorView::Harness(session.id@)),
        RailRow::HarnessSeparator => None,
        RailRow::Agent(AgentRow::Lane { lane_index }) => if lane_index < lanes.len() {
            Some(AnchorView::Lane(lanes[lane_index as int].key@))
        } else {
            None
        },
        RailRow::Agent(AgentRow::Sub { lane_index, task, .. }) => if lane_index < lanes.len() {
            Some(AnchorView::Task(lanes[lane_index as int].key@, task.task_id@))
        } else {
            None
        },
        RailRow::Agent(_) => None,
    }
}

/// Two anchors name the same row.
pub fn anchor_eq(a: &RailAnchor, b: &RailAnchor) -> (r: bool)
    ensures
        r == (a@ == b@),
{
    match (a, b) {
        (RailAnchor::NewHarness, RailAnchor::NewHarness) => true,
        (RailAnchor::Harness(x), RailAnchor::Harness(y)) => str_eq(x.as_str(), y.as_str()),
        (RailAnchor::Lane(x), RailAnchor::Lane(y)) => str_eq(x.as_str(), y.as_str()),
        (
            RailAnchor::Task { lane: la, task_id: ta },
            RailAnchor::Task { lane: lb, task_id: tb },
        ) => str_eq(la.as_str(), lb.as_str()) && str_eq(ta.as_str(), tb.as_str()),
        _ => false,
    }
}

/// The identity of `row`, when it is one the cursor can hold.
///
/// `lanes` must be the lane list `row` was built from: lane rows carry an
/// index into it, and the key behind that index is what survives the list
/// growing.
pub fn rail_anchor(row: &RailRow, lanes: &[AgentLane]) -> (r: Option<RailAnchor>)
    ensures
        r is Some <==> anchor_of(*row, lanes@) is Some,
        r is Some ==> r->0@ == anchor_of(*row, lanes@)->0,
{
    match row {
        RailRow::NewHarness => Some(RailAnchor::NewHarness),
        RailRow::Harness(session) => Some(RailAnchor::Harness(session.id.clone())),
        RailRow::HarnessSeparator => None,
        RailRow::Agent(AgentRow::Lane { lane_index }) => {
            if *lane_index < lanes.len() {
                Some(RailAnchor::Lane(lanes[*lane_index].key.clone()))
            } else {
                None
            }
        },
        RailRow::Agent(AgentRow::Sub { lane_index, task, .. }) => {
            if *lane_index < lanes.len() {
                Some(
                    RailAnchor::Task {
                        lane: lanes[*lane_index].key.clone(),
                        task_id: task.task_id.clone(),
                    },
                )
            } else {
                None
            }
        },
        RailRow::Agent(_) => None,
    }
}

/// Whether `row` is the row `anchor` names.
pub open spec fn names(row: RailRow, lanes: Seq<AgentLane>, anchor: AnchorView) -> bool {
    anchor_of(row, lanes) == Some(anchor)
}

/// Where the anchored row sits in `rows` now, or `fallback` when it is gone.
///
/// A row can genuinely disappear — a harness exits and is forgotten — and there
/// is no better answer then than the offset the cursor last held, clamped into
/// range.
pub fn resolve_rail_cursor(
    rows: &[RailRow],
    lanes: &[AgentLane],
    anchor: Option<&RailAnchor>,
    fallback: usize,
) -> (r: usize)
    ensures
        rows@.len() == 0 ==> r == 0,
        rows@.len() > 0 ==> r < rows@.len(),
        anchor is Some && rows@.len() > 0 && (exists|i: int|
            0 <= i < rows@.len() && #[trigger] names(rows@[i], lanes@, anchor->0@)) ==> names(
            rows@[r as int],
            lanes@,
            anchor->0@,
        ) && forall|j: int| 0 <= j < r ==> !#[trigger] names(rows@[j], lanes@, anchor->0@),
        anchor is None || !(exists|i: int|
            0 <= i < rows@.len() && #[trigger] names(rows@[i], lanes@, anchor->0@)) ==> (
        rows@.len() > 0 ==> r as int == (if fallback < rows@.len() - 1 {
            fallback as int
        } else {
            rows@.len() - 1
        })),
{
    if rows.len() == 0 {
        return 0;
    }
    if let Some(a) = anchor {
        let mut i: usize = 0;
        while i < rows.len()
            invariant
                0 <= i <= rows@.len(),
                anchor == Some(a),
                forall|j: int| 0 <= j < i ==> !#[trigger] names(rows@[j], lanes@, a@),
            decreases rows@.len() - i,
        {
            let candidate = rail_anchor(&rows[i], lanes);
            let hit = match &candidate {
                Some(c) => anchor_eq(c, a),
                None => false,
            };
            if hit {
                assert(names(rows@[i as int], lanes@, anchor->0@));
                return i;
            }
            i += 1;
        }
    }
    if fallback < rows.len() - 1 {
        fallback
    } else {
        rows.len() - 1
    }
}

} // verus!

verus! {

impl RailAnchor {
    /// A copy of this anchor.
    pub fn cloned(&self) -> (r: Self)
        ensures
            r == *self,
    {
        match self {
            RailAnchor::NewHarness => RailAnchor::NewHarness,
            RailAnchor::Harness(id) => RailAnchor::Harness(id.clone()),
            RailAnchor::Lane(key) => RailAnchor::Lane(key.clone()),
            RailAnchor::Task { lane, task_id } => RailAnchor::Task {
                lane: lane.clone(),
                task_id: task_id.clone(),
            },
        }
    }
}

/// The spec view of an optional anchor.
pub open spec fn opt_anchor_view(a: Option<RailAnchor>) -> Option<AnchorView> {
    match a {
        Some(a) => Some(a@),
        None => None,
    }
}

/// The rail cursor: the offset it last held and the identity of the row there.
///
/// Every read goes through [`RailCursor::rail_cursor_in`] and every write
/// through [`RailCursor::set_rail_cursor_in`], so a rail that grew a row while
/// the operator was looking elsewhere still answers with the row they picked.
#[derive(Debug)]
pub struct RailCursor {
    /// The offset the cursor last held.
    pub agent_index: usize,
    /// The identity of the row at that offset, when it has one.
    pub agent_anchor: Option<RailAnchor>,
}

/// The offset `set_rail_cursor_in` stores: `index` clamped into the rail.
pub open spec fn clamp_index(index: int, len: int) -> int {
    if len == 0 {
        0
    } else if index < len - 1 {
        index
    } else {
        len - 1
    }
}

impl RailCursor {
    /// A cursor at the top of the rail, on nothing in particular.
    pub fn new() -> (r: Self)
        ensures
            r.agent_index == 0,
            r.agent_anchor is None,
    {
        RailCursor { agent_index: 0, agent_anchor: None }
    }

    /// The rail offset the cursor is on, re-derived from its anchor against
    /// rows and lanes the caller already has.
    pub fn rail_cursor_in(&self, rows: &[RailRow], lanes: &[AgentLane]) -> (r: usize)
        ensures
            rows@.len() == 0 ==> r == 0,
            rows@.len() > 0 ==> r < rows@.len(),
            self.agent_anchor is Some && (exists|i: int|
                0 <= i < rows@.len() && #[trigger] names(
                    rows@[i],
                    lanes@,
                    self.agent_anchor->0@,
                )) ==> names(rows@[r as int], lanes@, self.agent_anchor->0@) && forall|j: int|
                0 <= j < r ==> !#[trigger] names(rows@[j], lanes@, self.agent_anchor->0@),
            self.agent_anchor is None || !(exists|i: int|
                0 <= i < rows@.len() && #[trigger] names(
                    rows@[i],
                    lanes@,
                    self.agent_anchor->0@,
                )) ==> r == clamp_index(self.agent_index as int, rows@.len() as int),
    {
        resolve_rail_cursor(rows, lanes, self.agent_anchor.as_ref(), self.agent_index)
    }

    /// Put the cursor on `index`, remembering *which row* that is.
    ///
    /// Setting the offset alone would leave the previous anchor in place, and
    /// the next frame would drag the cursor straight back to the old row.
    pub fn set_rail_cursor_in(&mut self, rows: &[RailRow], lanes: &[AgentLane], index: usize)
        ensures
            final(self).agent_index == clamp_index(index as int, rows@.len() as int),
            rows@.len() == 0 ==> final(self).agent_anchor is None,
            rows@.len() > 0 ==> opt_anchor_view(final(self).agent_anchor) == anchor_of(
                rows@[final(self).agent_index as int],
                lanes@,
            ),
    {
        self.agent_index = if rows.len() == 0 {
            0
        } else if index < rows.len() - 1 {
            index
        } else {
            rows.len() - 1
        };
        self.agent_anchor = if self.agent_index < rows.len() {
            rail_anchor(&rows[self.agent_index], lanes)
        } else {
            None
        };
    }

    /// Send the cursor back to the top and forget what it was on.
    pub fn reset_rail_cursor(&mut self)
        ensures
            final(self).agent_index == 0,
            final(self).agent_anchor is None,
    {
        self.agent_index = 0;
        self.agent_anchor = None;
    }
}

/// No two rows of the rail carry the same identity.
pub open spec fn anchors_distinct(rows: Seq<RailRow>, lanes: Seq<AgentLane>) -> bool {
    forall|i: int, j: int|
        0 <= i < j < rows.len() && (#[trigger] anchor_of(rows[i], lanes)) is Some ==> anchor_of(
            rows[i],
            lanes,
        ) != #[trigger] anchor_of(rows[j], lanes)
}

/// Putting the cursor on a row and reading it back against the same rail
/// lands on that row (clamped into range), provided no two rows share an
/// identity.
pub proof fn lemma_set_then_read(
    rows: Seq<RailRow>,
    lanes: Seq<AgentLane>,
    index: int,
    anchor: Option<AnchorView>,
)
    requires
        anchors_distinct(rows, lanes),
        rows.len() > 0,
        0 <= index,
        anchor == anchor_of(rows[clamp_index(index, rows.len() as int)], lanes),
    ensures
        anchor is Some ==> (exists|i: int| 0 <= i < rows.len() && #[trigger] names(rows[i], lanes, anchor->0)),
        anchor is Some ==> forall|i: int|
            0 <= i < rows.len() && #[trigger] names(rows[i], lanes, anchor->0) ==> i == clamp_index(
                index,
                rows.len() as int,
            ),
{
    let c = clamp_index(index, rows.len() as int);
    if anchor is Some {
        assert(names(rows[c], lanes, anchor->0));
        assert forall|i: int|
            0 <= i < rows.len() && #[trigger] names(rows[i], lanes, anchor->0) implies i == c by {
            if i < c {
                assert(anchor_of(rows[i], lanes) is Some);
            } else if i > c {
                assert(anchor_of(rows[c], lanes) is Some);
            }
        }
    }
}

/// A cursor that holds a row's identity finds that row again after the rail
/// is rebuilt with rows inserted, removed or reordered around it: it lands on
/// the first row of the new rail that carries the identity, wherever that is.
pub proof fn lemma_anchor_follows_row(
    rows: Seq<RailRow>,
    lanes: Seq<AgentLane>,
    anchor: AnchorView,
    at: int,
    cursor: int,
)
    requires
        0 <= at < rows.len(),
        names(rows[at], lanes, anchor),
        forall|j: int| 0 <= j < at ==> !#[trigger] names(rows[j], lanes, anchor),
        0 <= cursor < rows.len(),
        names(rows[cursor], lanes, anchor),
        forall|j: int| 0 <= j < cursor ==> !#[trigger] names(rows[j], lanes, anchor),
    ensures
        cursor == at,
{
    if cursor < at {
        assert(!names(rows[cursor], lanes, anchor));
    } else if cursor > at {
        assert(!names(rows[at], lanes, anchor));
    }
}

} // verus!

verus! {

/// Whether `row` is the orchestrator's lane header.
pub open spec fn is_orchestrator_row(row: AgentRow, lanes: Seq<AgentLane>) -> bool {
    match row {
        AgentRow::Lane { lane_index } => lane_index < lanes.len() && lanes[lane_index as int].role
            == AgentRole::Orchestrator,
        _ => false,
    }
}

/// `f` is the first orchestrator lane row of `rows`.
pub open spec fn is_first_orchestrator(rows: Seq<AgentRow>, lanes: Seq<AgentLane>, f: int) -> bool {
    &&& 0 <= f < rows.len()
    &&& is_orchestrator_row(rows[f], lanes)
    &&& forall|j: int| 0 <= j < f ==> !#[trigger] is_orchestrator_row(rows[j], lanes)
}

/// The lane rows, as rail rows.
pub open spec fn agent_rail_rows(rows: Seq<AgentRow>) -> Seq<RailRow> {
    rows.map_values(|row: AgentRow| RailRow::Agent(row))
}

/// The operator's harnesses, as rail rows under their divider; nothing when
/// there are none.
pub open spec fn harness_rail_rows(own: Seq<SessionRow>) -> Seq<RailRow> {
    if own.len() == 0 {
        Seq::empty()
    } else {
        seq![RailRow::HarnessSeparator] + own.map_values(|row: SessionRow| RailRow::Harness(row))
    }
}

/// The rail: the lane rows with the `+ New harness` action directly under the
/// first orchestrator lane (at the top when there is none yet, absent when the
/// device cannot start a harness), then the operator's own harnesses.
pub open spec fn spec_rail_rows(
    agent_rows: Seq<AgentRow>,
    lanes: Seq<AgentLane>,
    can_start: bool,
    own: Seq<SessionRow>,
) -> Seq<RailRow> {
    let agents = agent_rail_rows(agent_rows);
    let head = if !can_start {
        agents
    } else if exists|f: int| is_first_orchestrator(agent_rows, lanes, f) {
        let f = choose|f: int| is_first_orchestrator(agent_rows, lanes, f);
        agents.take(f + 1) + seq![RailRow::NewHarness] + agents.skip(f + 1)
    } else {
        seq![RailRow::NewHarness] + agents
    };
    head + harness_rail_rows(own)
}

/// The rail's rows from the lane rows of the fold, whether this device can
/// start a harness, and the operator's own harnesses.
pub fn rail_rows(
    agent_rows: &[AgentRow],
    lanes: &[AgentLane],
    can_start: bool,
    own: &[SessionRow],
) -> (r: Vec<RailRow>)
    ensures
        r@ == spec_rail_rows(agent_rows@, lanes@, can_start, own@),
{
    let mut rows: Vec<RailRow> = Vec::new();
    let mut placed = !can_start;
    let ghost mut first: int = -1;
    let mut i: usize = 0;
    while i < agent_rows.len()
        invariant
            0 <= i <= agent_rows@.len(),
            can_start ==> (placed <==> (first >= 0)),
            !can_start ==> placed && first == -1,
            first >= 0 ==> is_first_orchestrator(agent_rows@, lanes@, first) && first < i,
            can_start && first < 0 ==> forall|j: int| 0 <= j < i ==> !#[trigger] is_orchestrator_row(agent_rows@[j], lanes@),
            first < 0 ==> rows@ == agent_rail_rows(agent_rows@).take(i as int),
            first >= 0 ==> rows@ == agent_rail_rows(agent_rows@).take(first + 1) + seq![RailRow::NewHarness]
                + agent_rail_rows(agent_rows@).subrange(first + 1, i as int),
        decreases agent_rows@.len() - i,
    {
        let row = agent_rows[i].cloned();
        let orchestrator = match &row {
            AgentRow::Lane { lane_index } => *lane_index < lanes.len() && match lanes[*lane_index].role {
                AgentRole::Orchestrator => true,
                _ => false,
            },
            _ => false,
        };
        assert(orchestrator == is_orchestrator_row(agent_rows@[i as int], lanes@));
        let ghost before = rows@;
        rows.push(RailRow::Agent(row));
        if orchestrator && !placed {
            rows.push(RailRow::NewHarness);
            placed = true;
            proof {
                first = i as int;
                assert(rows@ =~= agent_rail_rows(agent_rows@).take(first + 1) + seq![RailRow::NewHarness]
                    + agent_rail_rows(agent_rows@).subrange(first + 1, i + 1));
            }
        } else {
            proof {
                if first >= 0 {
                    assert(rows@ =~= agent_rail_rows(agent_rows@).take(first + 1) + seq![RailRow::NewHarness]
                        + agent_rail_rows(agent_rows@).subrange(first + 1, i + 1));
                } else {
                    assert(rows@ =~= agent_rail_rows(agent_rows@).take(i + 1));
                }
            }
        }
        i += 1;
    }
    proof {
        let agents = agent_rail_rows(agent_rows@);
        if first >= 0 {
            assert(agents.subrange(first + 1, agents.len() as int) =~= agents.skip(first + 1));
            assert(exists|f: int| is_first_orchestrator(agent_rows@, lanes@, f));
            let f = choose|f: int| is_first_orchestrator(agent_rows@, lanes@, f);
            if f < first {
                assert(!is_orchestrator_row(agent_rows@[f], lanes@));
            } else if f > first {
                assert(!is_orchestrator_row(agent_rows@[first], lanes@));
            }
        } else {
            assert(agents.take(agents.len() as int) =~= agents);
            if can_start {
                assert(!exists|f: int| is_first_orchestrator(agent_rows@, lanes@, f));
            }
        }
    }
    if !placed {
        rows.insert(0, RailRow::NewHarness);
        assert(rows@ =~= seq![RailRow::NewHarness] + agent_rail_rows(agent_rows@));
    }
    let ghost head = rows@;
    if own.len() > 0 {
        rows.push(RailRow::HarnessSeparator);
        let mut k: usize = 0;
        while k < own.len()
            invariant
                0 <= k <= own@.len(),
                own@.len() > 0,
                rows@ == head + seq![RailRow::HarnessSeparator] + own@.take(k as int).map_values(
                    |row: SessionRow| RailRow::Harness(row),
                ),
            decreases own@.len() - k,
        {
            rows.push(RailRow::Harness(own[k].cloned()));
            assert(own@.take(k + 1).map_values(|row: SessionRow| RailRow::Harness(row))
                =~= own@.take(k as int).map_values(|row: SessionRow| RailRow::Harness(row)).push(
                RailRow::Harness(own@[k as int]),
            ));
            k += 1;
        }
        assert(own@.take(own@.len() as int) =~= own@);
    } else {
        assert(harness_rail_rows(own@) =~= Seq::<RailRow>::empty());
        assert(rows@ =~= head + harness_rail_rows(own@));
    }
    rows
}

/// Whether a session belongs to the operator: started by them, or now driven
/// by them.
pub open spec fn is_own_harness(row: SessionRow) -> bool {
    row.user_spawned || row.control == HarnessControl::User
}

/// Sessions ordered oldest first.
pub struct ByStartedAt;

impl Comparator<SessionRow> for ByStartedAt {
    open spec fn spec_le(&self, a: &SessionRow, b: &SessionRow) -> bool {
        a.started_at <= b.started_at
    }

    proof fn lemma_total(&self, a: &SessionRow, b: &SessionRow) {
    }

    proof fn lemma_trans(&self, a: &SessionRow, b: &SessionRow, c: &SessionRow) {
    }

    fn le(&self, a: &SessionRow, b: &SessionRow) -> (r: bool) {
        a.started_at <= b.started_at
    }
}

/// The harnesses this operator started or now holds, oldest first.
///
/// Exited ones stay listed: the last screen is often the reason it exited.
pub fn own_harness_rows(rows: &[SessionRow]) -> (r: Vec<SessionRow>)
    ensures
        stably_sorted(ByStartedAt, rows@.filter(|row: SessionRow| is_own_harness(row)), r@),
{
    let ghost pred = |row: SessionRow| is_own_harness(row);
    let mut kept: Vec<SessionRow> = Vec::new();
    let mut i: usize = 0;
    while i < rows.len()
        invariant
            0 <= i <= rows@.len(),
            pred == (|row: SessionRow| is_own_harness(row)),
            kept@ == rows@.take(i as int).filter(pred),
        decreases rows@.len() - i,
    {
        reveal(Seq::filter);
        assert(rows@.take(i + 1).drop_last() =~= rows@.take(i as int));
        assert(rows@.take(i + 1).last() == rows@[i as int]);
        let keep = rows[i].user_spawned || match rows[i].control {
            HarnessControl::User => true,
            HarnessControl::Orchestrator => false,
        };
        assert(keep == pred(rows@[i as int]));
        if keep {
            kept.push(rows[i].cloned());
        }
        i += 1;
    }
    assert(rows@.take(rows@.len() as int) =~= rows@);
    stable_sort(kept, &ByStartedAt)
}

/// Whether a waiting session is the one the operator is attached to.
pub open spec fn is_attached(attached: Option<Seq<char>>, id: Seq<char>) -> bool {
    attached == Some(id)
}

/// How many of the waiting sessions are not the attached one.
///
/// The attached session is excluded: its prompt is on screen in front of the
/// person the count is for. The waiting sessions form a set: no id is listed
/// twice, so the count is the set's size, less one when the attached session
/// is among them.
pub fn count_waiting(waiting: &[String], attached: Option<&str>) -> (r: usize)
    requires
        waiting@.map_values(|id: String| id@).no_duplicates(),
    ensures
        r == waiting@.map_values(|id: String| id@).filter(
            |id: Seq<char>| !is_attached(opt_str_view(attached), id),
        ).len(),
        r == waiting@.len() - if waiting@.map_values(|id: String| id@).contains(
            opt_str_view(attached).unwrap_or(Seq::empty()),
        ) && attached is Some {
            1int
        } else {
            0int
        },
{
    let ghost ids = waiting@.map_values(|id: String| id@);
    let ghost pred = |id: Seq<char>| !is_attached(opt_str_view(attached), id);
    let mut count: usize = 0;
    let mut i: usize = 0;
    while i < waiting.len()
        invariant
            0 <= i <= waiting@.len(),
            ids == waiting@.map_values(|id: String| id@),
            pred == (|id: Seq<char>| !is_attached(opt_str_view(attached), id)),
            count == ids.take(i as int).filter(pred).len(),
            count <= i,
            ids.no_duplicates(),
            count == i - if attached is Some && ids.take(i as int).contains(opt_str_view(attached)->0) {
                1int
            } else {
                0int
            },
        decreases waiting@.len() - i,
    {
        reveal(Seq::filter);
        assert(ids.take(i + 1).drop_last() =~= ids.take(i as int));
        assert(ids.take(i + 1)[i as int] == ids[i as int]);
        proof {
            if attached is Some {
                let a = opt_str_view(attached)->0;
                if ids.take(i + 1).contains(a) {
                    let k = choose|k: int| 0 <= k < ids.take(i + 1).len() && #[trigger] ids.take(i + 1)[k] == a;
                    if k < i {
                        assert(ids.take(i as int)[k] == a);
                    }
                }
                if ids.take(i as int).contains(a) {
                    let k = choose|k: int| 0 <= k < ids.take(i as int).len() && #[trigger] ids.take(i as int)[k] == a;
                    assert(ids.take(i + 1)[k] == a);
                    assert(ids[k] == a);
                }
            }
        }
        let skip = match attached {
            Some(a) => str_eq(a, waiting[i].as_str()),
            None => false,
        };
        if !skip {
            count += 1;
        }
        i += 1;
    }
    assert(ids.take(ids.len() as int) =~= ids);
    assert(ids.len() == waiting@.len());
    count
}

/// How many local sessions wait on the operator, given the waiting set when
/// this device runs sessions at all: none when it runs none.
pub fn sessions_waiting(waiting: Option<&[String]>, attached: Option<&str>) -> (r: usize)
    requires
        waiting matches Some(w) ==> w@.map_values(|id: String| id@).no_duplicates(),
    ensures
        r == match waiting {
            Some(w) => w@.map_values(|id: String| id@).filter(
                |id: Seq<char>| !is_attached(opt_str_view(attached), id),
            ).len(),
            None => 0,
        },
{
    match waiting {
        Some(w) => count_waiting(w, attached),
        None => 0,
    }
}

/// The spec view of an optional string slice.
pub open spec fn opt_str_view(s: Option<&str>) -> Option<Seq<char>> {
    match s {
        Some(s) => Some(s@),
        None => None,
    }
}

} // verus!
