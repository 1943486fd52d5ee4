//! What the operator is told when background work finishes.

use medulla_tui::narration::{
    evolve_request, handoff_status, hold_status, review_changes, review_reply, EvolveTrigger,
    Proposal, ReviewOutcome, ReviewReply,
};

#[test]
fn a_handoff_always_says_whether_the_brief_arrived() {
    assert_eq!(handoff_status(None), "Handed back · the orchestrator has your brief");
    assert_eq!(
        handoff_status(Some("socket closed")),
        "Handed back · your brief did not send: socket closed (the orchestrator may pick it up without context)"
    );
    assert_eq!(
        hold_status("timeout"),
        "You have this harness · the orchestrator was not told: timeout"
    );
}

#[test]
fn a_review_starts_from_the_failed_run_when_there_is_one() {
    assert_eq!(
        evolve_request(Some("run-7")),
        (
            EvolveTrigger::Failure("run-7".into()),
            "Review this workflow, starting from run run-7.".to_string()
        )
    );
    assert_eq!(
        evolve_request(None),
        (EvolveTrigger::Manual, "Review this workflow against its history.".to_string())
    );
}

#[test]
fn review_changes_count_notes_and_mark_proposals_that_will_not_apply() {
    let proposals = vec![
        Proposal { rationale: "  tighten the retry  ".into(), applicable: true },
        Proposal { rationale: "drop step b".into(), applicable: false },
    ];
    assert_eq!(
        review_changes(1, &proposals),
        vec![
            "+ 1 note".to_string(),
            "~ proposed: tighten the retry".to_string(),
            "~ proposed: drop step b (will not apply)".to_string(),
        ]
    );
    assert_eq!(review_changes(12, &[]), vec!["+ 12 notes".to_string()]);
    assert!(review_changes(0, &[]).is_empty());
}

#[test]
fn the_pane_is_told_how_a_review_ended() {
    assert_eq!(
        review_reply(ReviewOutcome::Skipped, "i".into()),
        ReviewReply::Done {
            reply: "A review of this workflow is already running.".into(),
            changes: Vec::new(),
        }
    );
    assert_eq!(
        review_reply(
            ReviewOutcome::Reviewed { reply: "ok".into(), notes: 2, proposals: Vec::new() },
            "i".into()
        ),
        ReviewReply::Done { reply: "ok".into(), changes: vec!["+ 2 notes".into()] }
    );
    assert_eq!(
        review_reply(ReviewOutcome::Error("no host".into()), "Review it.".into()),
        ReviewReply::Failed { instruction: "Review it.".into(), error: "no host".into() }
    );
}
