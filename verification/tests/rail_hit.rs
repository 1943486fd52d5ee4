//! Pointer targets captured from drawn rail rows.

use medulla_tui::rail::{
    rail_anchor, AgentLane, AgentRole, AgentRow, HarnessControl, RailAnchor, RailRow, SessionRow,
};
use medulla_tui::rail_hit::{RailHit, RailHitTarget};

fn lane(key: &str) -> AgentLane {
    AgentLane {
        key: key.into(),
        label: key.into(),
        role: AgentRole::Agent,
        last_at: 0,
        tasks: Vec::new(),
        harness_label: None,
        agent_id: None,
        host_id: None,
    }
}

fn session(id: &str) -> SessionRow {
    SessionRow {
        id: id.into(),
        label: id.into(),
        cwd: "/work".into(),
        started_at: 0,
        last_output_at: 0,
        control: HarnessControl::User,
        user_spawned: true,
    }
}

#[test]
fn each_row_kind_captures_its_own_action() {
    let new = RailHit::from_row(&RailRow::NewHarness, Some(RailAnchor::NewHarness), 0);
    assert_eq!(new.target, RailHitTarget::NewAgent);
    let more = RailHit::from_row(
        &RailRow::Agent(AgentRow::More { lane_index: 0, hidden: 3 }),
        None,
        4,
    );
    assert_eq!(more.target, RailHitTarget::Overflow);
    let harness = RailHit::from_row(&RailRow::Harness(session("w_1")), None, 2);
    assert_eq!(harness.target, RailHitTarget::Session("w_1".into()));
    assert_eq!(harness.target.session_id(), Some("w_1".to_string()));
    let header = RailHit::from_row(&RailRow::Agent(AgentRow::Lane { lane_index: 0 }), None, 1);
    assert_eq!(header.target, RailHitTarget::Selectable);
    assert_eq!(header.target.session_id(), None);
    let divider = RailHit::from_row(&RailRow::HarnessSeparator, None, 3);
    assert_eq!(divider.target, RailHitTarget::Inert);
    assert!(!divider.selectable());
    assert!(header.selectable() && harness.selectable() && more.selectable());
    assert_eq!(divider.index, 3);
}

#[test]
fn a_hit_survives_only_while_its_row_does() {
    let lanes = vec![lane("builder"), lane("scout")];
    let rows = vec![
        RailRow::Agent(AgentRow::Lane { lane_index: 0 }),
        RailRow::Agent(AgentRow::Lane { lane_index: 1 }),
    ];
    let drawn = rail_anchor(&rows[1], &lanes);
    assert_eq!(drawn, Some(RailAnchor::Lane("scout".into())));
    let hit = RailHit::from_row(&rows[1], drawn, 1);
    assert!(hit.exists_in(&rows, &lanes));

    // The scout lane went away between the draw and the click.
    let now = vec![lane("builder")];
    let rows_now = vec![RailRow::Agent(AgentRow::Lane { lane_index: 0 })];
    assert!(!hit.exists_in(&rows_now, &now));

    // A row drawn without an identity can never be found again.
    let anonymous = RailHit::from_row(&RailRow::HarnessSeparator, None, 0);
    assert!(!anonymous.exists_in(&rows, &lanes));
}
