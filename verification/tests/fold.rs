//! Assembling the Host → Agent → Session tree: which task row a live session
//! folds into, how lanes become agent groups, and where they are placed.

use medulla_tui::fold::{
    attach_sessions, group_for_lane, ordered_tasks, place_agents, split_fold, task_row_serving,
    trim_agent_prefix,
    unplaced_host, AgentGroup, AgentRailRow, HostAgentRow, HostGroup, HostKind, HostRailRow,
    HostRow, SessionRailRow,
};
use medulla_tui::rail::{
    AgentLane, AgentRole, AgentRow, HarnessControl, SessionRow, TaskState, TaskStatus,
};

fn stub_session(id: &str) -> SessionRow {
    SessionRow {
        id: id.into(),
        label: "stub".into(),
        cwd: "/workspace".into(),
        started_at: 0,
        last_output_at: 0,
        control: HarnessControl::User,
        user_spawned: true,
    }
}

fn task_state(task_id: &str, status: TaskStatus, last_at: i64) -> TaskState {
    TaskState { task_id: task_id.to_string(), status, turns: 0, last_at }
}

fn task_row(task_id: &str) -> SessionRailRow {
    SessionRailRow {
        agent_id: Some("shell".to_string()),
        lane_index: Some(0),
        task: Some(task_state(task_id, TaskStatus::Running, 0)),
        local: None,
        last: false,
    }
}

fn group(sessions: Vec<SessionRailRow>) -> AgentGroup {
    AgentGroup {
        row: AgentRailRow {
            agent_id: "shell".to_string(),
            host_id: String::new(),
            agent: None,
            lane_index: Some(0),
        },
        sessions,
        last_at: 0,
        lane_label: None,
        harness_label: None,
        visible_tasks: 0,
        hidden: 0,
        overflow: false,
    }
}

fn shell_lane(tasks: Vec<TaskState>) -> AgentLane {
    AgentLane {
        key: "agent:shell".into(),
        label: "shell".into(),
        role: AgentRole::Agent,
        last_at: 0,
        tasks,
        harness_label: None,
        agent_id: Some("shell".into()),
        host_id: None,
    }
}

#[test]
fn the_task_row_takes_the_session_it_is_being_served_by() {
    let owner = group(vec![task_row("t-other"), task_row("t-1")]);
    let groups = vec![owner];

    let (g, s) = task_row_serving(&groups, "w_1", |task_id: &str| match task_id {
        "t-1" => Some("w_1".to_string()),
        _ => Some("w_9".to_string()),
    })
    .expect("the task this pty is serving");

    assert_eq!(
        groups[g].sessions[s].task.as_ref().map(|task| task.task_id.as_str()),
        Some("t-1"),
        "the merge must pick the task the daemon says this pty serves, \
         not the first task row on the rail"
    );
}

#[test]
fn a_task_row_that_already_has_a_session_is_left_alone() {
    let mut taken = task_row("t-1");
    taken.local = Some(stub_session("w_1"));
    let groups = vec![group(vec![taken])];

    assert!(
        task_row_serving(&groups, "w_2", |_: &str| Some("w_2".to_string())).is_none(),
        "a row already carrying a session is not a merge target"
    );
}

#[test]
fn a_settled_task_keeps_its_retained_session_on_a_row_of_its_own() {
    let groups = vec![group(vec![task_row("t-1")])];

    assert!(task_row_serving(&groups, "w_1", |_: &str| None).is_none());
}

#[test]
fn paging_starts_with_the_fold_running_first_task_order() {
    let lane = shell_lane(vec![
        task_state("completed-recently", TaskStatus::Done, 900),
        task_state("running-older", TaskStatus::Running, 100),
    ]);

    let group = group_for_lane(&lane, 0);

    assert_eq!(
        group
            .sessions
            .iter()
            .filter_map(|session| session.task.as_ref().map(|task| task.task_id.as_str()))
            .collect::<Vec<_>>(),
        vec!["running-older", "completed-recently"],
        "the first task page must match the fold's running-first order"
    );
}

#[test]
fn sublanes_order_running_first_then_most_recent_keeping_ties_in_fold_order() {
    let tasks = vec![
        task_state("done-old", TaskStatus::Done, 100),
        task_state("run-old", TaskStatus::Running, 100),
        task_state("failed-new", TaskStatus::Failed, 900),
        task_state("run-new", TaskStatus::Running, 900),
        task_state("run-old-twin", TaskStatus::Running, 100),
    ];
    let ordered: Vec<String> = ordered_tasks(&tasks).into_iter().map(|t| t.task_id).collect();
    assert_eq!(ordered, vec!["run-new", "run-old", "run-old-twin", "failed-new", "done-old"]);
}

#[test]
fn a_lane_without_an_agent_id_is_keyed_by_its_key_without_the_prefix() {
    let mut lane = shell_lane(Vec::new());
    lane.agent_id = None;
    lane.key = "agent:agent:builder".into();
    lane.host_id = Some("studio".into());
    let group = group_for_lane(&lane, 3);
    assert_eq!(group.row.agent_id, "builder");
    assert_eq!(group.row.host_id, "studio");
    assert_eq!(group.row.lane_index, Some(3));
    assert_eq!(group.lane_label.as_deref(), Some("shell"));
    assert_eq!(trim_agent_prefix("orchestrator"), "orchestrator");
}

#[test]
fn splitting_the_fold_groups_agent_lanes_and_tallies_what_follows() {
    let lanes = vec![
        AgentLane { role: AgentRole::Orchestrator, ..shell_lane(Vec::new()) },
        shell_lane(vec![task_state("t-1", TaskStatus::Running, 5)]),
        AgentLane { role: AgentRole::Function, ..shell_lane(Vec::new()) },
    ];
    let rows = vec![
        AgentRow::Sub { lane_index: 1, task: task_state("orphan", TaskStatus::Running, 0), last: false },
        AgentRow::Lane { lane_index: 0 },
        AgentRow::Lane { lane_index: 1 },
        AgentRow::Sub { lane_index: 1, task: task_state("t-1", TaskStatus::Running, 5), last: false },
        AgentRow::Sub { lane_index: 1, task: task_state("t-2", TaskStatus::Running, 4), last: true },
        AgentRow::More { lane_index: 1, hidden: 4 },
        AgentRow::Separator,
        AgentRow::Lane { lane_index: 2 },
        AgentRow::Lane { lane_index: 9 },
    ];
    let (lane_rows, groups) = split_fold(&rows, &lanes);
    assert_eq!(lane_rows.len(), 3);
    assert!(matches!(lane_rows[0], AgentRow::Lane { lane_index: 0 }));
    assert!(matches!(lane_rows[1], AgentRow::Separator));
    assert!(matches!(lane_rows[2], AgentRow::Lane { lane_index: 2 }));
    assert_eq!(groups.len(), 1);
    assert_eq!(groups[0].visible_tasks, 2);
    assert_eq!(groups[0].hidden, 4);
    assert!(groups[0].overflow);
    assert_eq!(groups[0].sessions.len(), 1);
}

fn host_group(id: &str, local: bool) -> HostGroup {
    HostGroup {
        row: HostRailRow { host_id: id.into(), label: id.into(), local },
        agents: Vec::new(),
    }
}

#[test]
fn an_unknown_lane_hangs_on_the_host_it_names_else_on_this_machine() {
    let hosts = vec![host_group("remote-1", false), host_group("studio", true)];
    assert_eq!(unplaced_host(&hosts, " remote-1 "), Some(0));
    assert_eq!(unplaced_host(&hosts, "elsewhere"), Some(1));
    assert_eq!(unplaced_host(&hosts, ""), Some(1));
    assert_eq!(unplaced_host(&[host_group("remote-1", false)], "elsewhere"), None);
}

#[test]
fn placing_agents_follows_the_tree_and_loses_no_lane() {
    let tree = vec![HostRow {
        id: "studio".into(),
        label: "this device".into(),
        kind: HostKind::Local,
        agents: vec![
            HostAgentRow { agent_id: "idle".into(), label: "idle".into() },
            HostAgentRow { agent_id: "shell".into(), label: "shell".into() },
        ],
    }];
    let mut stranger = group(Vec::new());
    stranger.row.agent_id = "backend-roster".into();
    stranger.row.host_id = "far-away".into();
    stranger.row.lane_index = Some(7);
    let shell = group(vec![task_row("t-1")]);

    let hosts = place_agents(&tree, vec![stranger, shell]);
    assert_eq!(hosts.len(), 1);
    let agents: Vec<&str> = hosts[0].agents.iter().map(|g| g.row.agent_id.as_str()).collect();
    assert_eq!(agents, vec!["idle", "shell", "backend-roster"]);
    assert_eq!(hosts[0].agents[1].sessions.len(), 1, "the lane's tasks come along");
    assert_eq!(hosts[0].agents[1].row.host_id, "studio");
    assert_eq!(hosts[0].agents[0].row.lane_index, None, "an agent with no traffic still has a row");

    let remote_only = vec![HostRow {
        id: "remote".into(),
        label: "remote".into(),
        kind: HostKind::Remote,
        agents: Vec::new(),
    }];
    let mut loose = group(Vec::new());
    loose.row.host_id = "nowhere".into();
    let hosts = place_agents(&remote_only, vec![loose]);
    assert_eq!(hosts.len(), 2);
    assert_eq!(hosts[1].row.label, "unplaced");
    assert!(!hosts[1].row.local);
}

#[test]
fn live_sessions_join_their_task_row_their_agent_or_the_unclaimed() {
    let mut groups = vec![group(vec![task_row("t-1")])];
    let rows = vec![stub_session("w_1"), stub_session("w_2"), stub_session("w_3")];
    let agent_ids = vec![None, Some(" shell ".to_string()), Some("nobody".to_string())];
    let orphans = attach_sessions(&mut groups, &rows, &agent_ids, |task_id: &str| {
        if task_id == "t-1" {
            Some("w_1".to_string())
        } else {
            None
        }
    });
    // The pty serving t-1 is folded into that task's row.
    assert_eq!(groups[0].sessions[0].local.as_ref().map(|s| s.id.as_str()), Some("w_1"));
    // The one resolved to the shell agent goes under it, with the lane.
    assert_eq!(groups[0].sessions.len(), 2);
    assert_eq!(groups[0].sessions[1].local.as_ref().map(|s| s.id.as_str()), Some("w_2"));
    assert_eq!(groups[0].sessions[1].lane_index, Some(0));
    assert!(groups[0].sessions[1].task.is_none());
    // The one nothing claims is listed, not dropped.
    assert_eq!(orphans.len(), 1);
    assert_eq!(orphans[0].local.as_ref().map(|s| s.id.as_str()), Some("w_3"));
    assert_eq!(orphans[0].agent_id.as_deref(), Some("nobody"));
    assert_eq!(orphans[0].lane_index, None);
}

#[test]
fn a_task_row_takes_only_one_live_session() {
    let mut groups = vec![group(vec![task_row("t-1")])];
    let rows = vec![stub_session("w_1"), stub_session("w_1")];
    // Two live rows under one id: the second finds the task row already taken.
    let orphans = attach_sessions(&mut groups, &rows, &[None, None], |_: &str| Some("w_1".to_string()));
    assert_eq!(groups[0].sessions.len(), 1);
    assert_eq!(groups[0].sessions[0].local.as_ref().map(|s| s.id.as_str()), Some("w_1"));
    assert_eq!(orphans.len(), 1);
    assert_eq!(orphans[0].local.as_ref().map(|s| s.id.as_str()), Some("w_1"));
}
