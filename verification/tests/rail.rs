//! The Agents rail's cursor identity: the row the operator picked stays picked
//! while the rail grows, reorders, and loses rows underneath them.

use medulla_tui::rail::{
    count_waiting, own_harness_rows, rail_anchor, rail_rows, resolve_rail_cursor,
    sessions_waiting, AgentLane, AgentRole, AgentRow, HarnessControl, RailAnchor, RailCursor,
    RailRow, SessionRow, TaskState, TaskStatus,
};

fn lane(key: &str, tasks: Vec<TaskState>) -> AgentLane {
    AgentLane {
        key: key.into(),
        label: key.into(),
        role: AgentRole::Agent,
        last_at: 0,
        tasks,
        harness_label: None,
        agent_id: None,
        host_id: None,
    }
}

fn role_lane(key: &str, role: AgentRole) -> AgentLane {
    AgentLane { role, ..lane(key, Vec::new()) }
}

fn task(id: &str) -> TaskState {
    TaskState { task_id: id.into(), status: TaskStatus::Running, turns: 1, last_at: 0 }
}

fn harness(id: &str) -> SessionRow {
    SessionRow {
        id: id.into(),
        label: "local".into(),
        cwd: "/workspace".into(),
        started_at: 1,
        last_output_at: 1,
        control: HarnessControl::User,
        user_spawned: true,
    }
}

fn before() -> (Vec<AgentLane>, Vec<RailRow>) {
    let lanes = vec![lane("orchestrator", Vec::new())];
    let rows = vec![
        RailRow::Agent(AgentRow::Lane { lane_index: 0 }),
        RailRow::NewHarness,
        RailRow::HarnessSeparator,
        RailRow::Harness(harness("w_1")),
    ];
    (lanes, rows)
}

fn after() -> (Vec<AgentLane>, Vec<RailRow>) {
    let lanes = vec![lane("orchestrator", Vec::new()), lane("agent:builder", vec![task("task-1")])];
    let rows = vec![
        RailRow::Agent(AgentRow::Lane { lane_index: 0 }),
        RailRow::NewHarness,
        RailRow::Agent(AgentRow::Lane { lane_index: 1 }),
        RailRow::Agent(AgentRow::Sub { lane_index: 1, task: task("task-1"), last: true }),
        RailRow::HarnessSeparator,
        RailRow::Harness(harness("w_1")),
    ];
    (lanes, rows)
}

#[test]
fn an_anchored_agent_follows_rows_inserted_ahead_of_it() {
    let lanes = vec![lane("scout", Vec::new()), lane("builder", Vec::new())];
    let anchor = RailAnchor::Lane("builder".to_string());
    let rows = vec![
        RailRow::NewHarness,
        RailRow::Agent(AgentRow::Lane { lane_index: 0 }),
        RailRow::Agent(AgentRow::Lane { lane_index: 1 }),
    ];

    assert_eq!(resolve_rail_cursor(&rows, &lanes, Some(&anchor), 0), 2);
}

#[test]
fn a_missing_anchor_uses_the_clamped_previous_offset() {
    let lanes = vec![lane("builder", Vec::new())];
    let rows = vec![RailRow::NewHarness, RailRow::Agent(AgentRow::Lane { lane_index: 0 })];
    let anchor = RailAnchor::Lane("removed".to_string());

    assert_eq!(resolve_rail_cursor(&rows, &lanes, Some(&anchor), 99), 1);
}

#[test]
fn a_spawned_agent_does_not_move_the_cursor_off_the_operators_harness() {
    let (lanes, rows) = before();
    let anchor = rail_anchor(&rows[3], &lanes).expect("a harness row is selectable");
    assert_eq!(anchor, RailAnchor::Harness("w_1".into()));

    let (lanes, rows) = after();
    let cursor = resolve_rail_cursor(&rows, &lanes, Some(&anchor), 3);

    assert_eq!(
        cursor, 5,
        "the cursor must follow the harness row, not the offset it used to sit at"
    );
    assert!(
        matches!(&rows[cursor], RailRow::Harness(row) if row.id == "w_1"),
        "the resolved row must be the same harness"
    );
}

#[test]
fn an_anchored_lane_survives_lanes_appearing_above_it() {
    let lanes = vec![lane("agent:builder", Vec::new())];
    let rows = [RailRow::Agent(AgentRow::Lane { lane_index: 0 })];
    let anchor = rail_anchor(&rows[0], &lanes).expect("a lane row is selectable");

    let lanes = vec![lane("agent:scout", Vec::new()), lane("agent:builder", Vec::new())];
    let rows = vec![
        RailRow::Agent(AgentRow::Lane { lane_index: 0 }),
        RailRow::Agent(AgentRow::Lane { lane_index: 1 }),
    ];

    assert_eq!(resolve_rail_cursor(&rows, &lanes, Some(&anchor), 0), 1);
}

#[test]
fn a_task_sublane_is_anchored_to_its_task_not_its_position() {
    let lanes = vec![lane("agent:builder", vec![task("task-a"), task("task-b")])];
    let rows = [
        RailRow::Agent(AgentRow::Lane { lane_index: 0 }),
        RailRow::Agent(AgentRow::Sub { lane_index: 0, task: task("task-a"), last: false }),
        RailRow::Agent(AgentRow::Sub { lane_index: 0, task: task("task-b"), last: true }),
    ];
    let anchor = rail_anchor(&rows[2], &lanes).expect("a sublane is selectable");
    assert_eq!(
        anchor,
        RailAnchor::Task { lane: "agent:builder".into(), task_id: "task-b".into() }
    );

    let reordered = [
        RailRow::Agent(AgentRow::Lane { lane_index: 0 }),
        RailRow::Agent(AgentRow::Sub { lane_index: 0, task: task("task-b"), last: false }),
        RailRow::Agent(AgentRow::Sub { lane_index: 0, task: task("task-a"), last: true }),
    ];

    assert_eq!(resolve_rail_cursor(&reordered, &lanes, Some(&anchor), 2), 1);
}

#[test]
fn a_row_that_is_gone_falls_back_to_the_last_offset() {
    let anchor = RailAnchor::Harness("w_gone".into());
    let (lanes, rows) = after();

    assert_eq!(resolve_rail_cursor(&rows, &lanes, Some(&anchor), 3), 3);
    assert_eq!(
        resolve_rail_cursor(&rows, &lanes, Some(&anchor), 99),
        rows.len() - 1,
        "an out-of-range fallback must clamp rather than index past the end"
    );
}

#[test]
fn dividers_are_not_anchorable() {
    let (lanes, rows) = before();

    assert_eq!(rail_anchor(&rows[2], &lanes), None);
    assert_eq!(rail_anchor(&rows[1], &lanes), Some(RailAnchor::NewHarness));
}

#[test]
fn an_empty_rail_resolves_to_zero() {
    let anchor = RailAnchor::NewHarness;

    assert_eq!(resolve_rail_cursor(&[], &[], Some(&anchor), 7), 0);
}

#[test]
fn setting_the_cursor_then_reading_it_back_lands_on_the_same_row() {
    let (lanes, rows) = after();
    let mut cursor = RailCursor::new();
    cursor.set_rail_cursor_in(&rows, &lanes, 5);
    assert_eq!(cursor.rail_cursor_in(&rows, &lanes), 5);
    assert_eq!(cursor.agent_anchor, Some(RailAnchor::Harness("w_1".into())));

    // A divider has no identity: the offset alone is remembered.
    cursor.set_rail_cursor_in(&rows, &lanes, 4);
    assert_eq!(cursor.agent_anchor, None);
    assert_eq!(cursor.rail_cursor_in(&rows, &lanes), 4);

    // Past the end clamps onto the last row.
    cursor.set_rail_cursor_in(&rows, &lanes, 40);
    assert_eq!(cursor.agent_index, 5);

    cursor.reset_rail_cursor();
    assert_eq!(cursor.agent_index, 0);
    assert_eq!(cursor.agent_anchor, None);
}

#[test]
fn a_cursor_set_before_a_spawn_is_still_on_its_harness_after_it() {
    let (lanes, rows) = before();
    let mut cursor = RailCursor::new();
    cursor.set_rail_cursor_in(&rows, &lanes, 3);
    let (lanes, rows) = after();
    assert_eq!(cursor.rail_cursor_in(&rows, &lanes), 5);
}

#[test]
fn the_new_harness_action_sits_under_the_orchestrator_lane() {
    let lanes = vec![role_lane("agent:builder", AgentRole::Agent), role_lane("orchestrator", AgentRole::Orchestrator)];
    let agent_rows = vec![AgentRow::Lane { lane_index: 0 }, AgentRow::Lane { lane_index: 1 }];
    let own = vec![harness("w_1")];

    let rows = rail_rows(&agent_rows, &lanes, true, &own);
    assert_eq!(rows.len(), 5);
    assert!(matches!(rows[0], RailRow::Agent(AgentRow::Lane { lane_index: 0 })));
    assert!(matches!(rows[1], RailRow::Agent(AgentRow::Lane { lane_index: 1 })));
    assert!(rows[2].is_new_harness());
    assert!(matches!(rows[3], RailRow::HarnessSeparator));
    assert_eq!(rows[4].session_id(), Some("w_1"));
}

#[test]
fn without_an_orchestrator_lane_the_action_leads_and_without_hosting_it_is_absent() {
    let lanes = vec![role_lane("agent:builder", AgentRole::Agent)];
    let agent_rows = vec![AgentRow::Lane { lane_index: 0 }];

    let rows = rail_rows(&agent_rows, &lanes, true, &[]);
    assert_eq!(rows.len(), 2);
    assert!(rows[0].is_new_harness());

    let rows = rail_rows(&agent_rows, &lanes, false, &[]);
    assert_eq!(rows.len(), 1);
    assert!(!rows.iter().any(|row| row.is_new_harness()));
}

#[test]
fn selectability_follows_the_row_kind() {
    assert!(RailRow::NewHarness.selectable());
    assert!(!RailRow::HarnessSeparator.selectable());
    assert!(RailRow::Harness(harness("w_1")).selectable());
    assert!(RailRow::Agent(AgentRow::Lane { lane_index: 0 }).selectable());
    assert!(!RailRow::Agent(AgentRow::Separator).selectable());
    assert!(!RailRow::Agent(AgentRow::More { lane_index: 0, hidden: 3 }).selectable());
    assert_eq!(RailRow::NewHarness.session_id(), None);
}

#[test]
fn own_harnesses_are_the_operators_oldest_first() {
    let mut late = harness("late");
    late.started_at = 30;
    let mut early = harness("early");
    early.started_at = 10;
    let mut dispatched = harness("dispatched");
    dispatched.user_spawned = false;
    dispatched.control = HarnessControl::Orchestrator;
    let mut taken = harness("taken");
    taken.user_spawned = false;
    taken.started_at = 20;

    let rows = own_harness_rows(&[late, dispatched, early, taken]);
    let ids: Vec<&str> = rows.iter().map(|row| row.id.as_str()).collect();
    assert_eq!(ids, vec!["early", "taken", "late"]);
}

#[test]
fn the_attached_session_is_not_counted_as_waiting() {
    let waiting = vec!["w_1".to_string(), "w_2".to_string(), "w_3".to_string()];
    assert_eq!(count_waiting(&waiting, Some("w_2")), 2);
    assert_eq!(count_waiting(&waiting, None), 3);
    assert_eq!(count_waiting(&waiting, Some("w_9")), 3);
}

#[test]
fn a_device_without_sessions_has_none_waiting() {
    let waiting = vec!["w_1".to_string(), "w_2".to_string()];
    assert_eq!(sessions_waiting(None, Some("w_1")), 0);
    assert_eq!(sessions_waiting(Some(&waiting), Some("w_1")), 1);
    assert_eq!(sessions_waiting(Some(&waiting), None), 2);
}

#[test]
fn the_waiting_count_is_the_set_less_the_attached_session() {
    let waiting = vec!["a".to_string(), "b".to_string(), "c".to_string()];
    assert_eq!(count_waiting(&waiting, Some("b")), waiting.len() - 1);
    assert_eq!(count_waiting(&waiting, Some("z")), waiting.len());
}
