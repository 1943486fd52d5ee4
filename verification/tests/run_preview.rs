//! What the step preview says of a node in a selected run.

use medulla_tui::node_preview::Json;
use medulla_tui::run_preview::{
    run_lines, HiddenError, NullBinding, RunDiagnosis, RunLine, RunRecord, RunStep, SkippedNode,
};

fn s(text: &str) -> Json {
    Json::Str(text.into())
}

fn step(node: &str, input: Option<Json>, output: Option<Json>, status: &str) -> RunStep {
    RunStep { node_id: node.into(), input, output, status: status.into() }
}

fn run(steps: Vec<RunStep>) -> RunRecord {
    RunRecord { summary: None, steps, error: None, diagnosis: None, failed: false }
}

#[test]
fn a_node_the_run_never_reached_says_so() {
    assert_eq!(run_lines(&run(vec![step("a", None, None, "ok")]), "b", false), vec![RunLine::NotReached]);
}

#[test]
fn the_latest_step_of_the_node_is_the_one_shown() {
    let record = run(vec![
        step("a", None, Some(s("first")), "ok"),
        step("a", None, Some(s("second")), "ok"),
    ]);
    assert_eq!(
        run_lines(&record, "a", false),
        vec![RunLine::Labelled { label: "result".into(), value: s("second") }]
    );
}

#[test]
fn an_agent_step_shows_its_prompt_and_its_prose() {
    let envelope = Json::Array(vec![Json::Object(vec![(
        "json".into(),
        Json::Object(vec![("text".into(), s("done"))]),
    )])]);
    let record = run(vec![step("a", Some(s("fix it")), Some(envelope), "ok")]);
    assert_eq!(
        run_lines(&record, "a", true),
        vec![
            RunLine::Labelled { label: "prompt".into(), value: s("fix it") },
            RunLine::Labelled { label: "output".into(), value: s("done") },
        ]
    );
    let old = run(vec![step("a", None, None, "ok")]);
    assert_eq!(
        run_lines(&old, "a", true),
        vec![
            RunLine::Missing("prompt  unavailable in this older run record".into()),
            RunLine::Missing("result  unavailable in this older run record".into()),
        ]
    );
}

#[test]
fn a_failed_step_without_output_says_it_produced_nothing() {
    let record = run(vec![step("a", None, None, "ERROR")]);
    assert_eq!(
        run_lines(&record, "a", false),
        vec![RunLine::NoOutput("result  no output was produced".into())]
    );
}

#[test]
fn a_failed_run_reports_its_failure_its_diagnosis_and_the_fix() {
    let record = RunRecord {
        summary: Some("3 steps".into()),
        steps: vec![step("a", None, Some(s("r")), "ok")],
        error: Some("boom".into()),
        diagnosis: Some(RunDiagnosis {
            null_bindings: vec![
                NullBinding { node_id: "a".into(), location: "url".into(), suggestion: "set it".into() },
                NullBinding { node_id: "b".into(), location: "x".into(), suggestion: "y".into() },
            ],
            hidden_errors: vec![HiddenError { node_id: "a".into(), message: None }],
            empty_prompts: vec!["a".into()],
            never_ran: vec![
                SkippedNode { node_id: "a".into(), routed_by: Some("if-1".into()) },
                SkippedNode { node_id: "a".into(), routed_by: None },
            ],
        }),
        failed: true,
    };
    assert_eq!(
        run_lines(&record, "a", false),
        vec![
            RunLine::Summary("3 steps".into()),
            RunLine::Labelled { label: "result".into(), value: s("r") },
            RunLine::Labelled { label: "failure".into(), value: s("boom") },
            RunLine::Warning("url resolved to null · set it".into()),
            RunLine::Warning("error was swallowed by this step's policy".into()),
            RunLine::Warning("agent ran with an empty prompt".into()),
            RunLine::Warning("not reached; routed away by if-1".into()),
            RunLine::FixHint,
        ]
    );
}
