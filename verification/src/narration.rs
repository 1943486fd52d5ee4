//! What the operator is told when work handed to the background finishes:
//! a harness handed back or held, and a workflow review.
//!
//! Every outcome is narrated. A brief that silently fails to send is the
//! failure handing back exists to remove, so a failure always says so.

use vstd::prelude::*;

use crate::text::{concat, push_decimal, string_from_chars, to_string, trimmed, trimmed_chars};

verus! {

/// What handing a harness back to the orchestrator says: that the brief
/// arrived, or why it did not.
pub open spec fn spec_handoff_status(error: Option<Seq<char>>) -> Seq<char> {
    match error {
        None => "Handed back · the orchestrator has your brief"@,
        Some(e) => "Handed back · your brief did not send: "@ + e
            + " (the orchestrator may pick it up without context)"@,
    }
}

/// The view of an optional borrowed string.
pub open spec fn opt_text(s: Option<&str>) -> Option<Seq<char>> {
    match s {
        Some(s) => Some(s@),
        None => None,
    }
}

/// The status a hand-off leaves, given the error it failed with, if any.
pub fn handoff_status(error: Option<&str>) -> (r: String)
    ensures
        r@ == spec_handoff_status(opt_text(error)),
{
    match error {
        None => to_string("Handed back · the orchestrator has your brief"),
        Some(e) => {
            let m = concat("Handed back · your brief did not send: ", e);
            concat(m.as_str(), " (the orchestrator may pick it up without context)")
        },
    }
}

/// The status a failed hold leaves; a hold that succeeds says nothing.
pub fn hold_status(error: &str) -> (r: String)
    ensures
        r@ == "You have this harness · the orchestrator was not told: "@ + error@,
{
    concat("You have this harness · the orchestrator was not told: ", error)
}

/// Why a workflow is reviewed.
#[derive(Debug, Clone, PartialEq, Eq)]
pub enum EvolveTrigger {
    /// A run failed; the review starts from it.
    Failure(String),
    /// The operator asked.
    Manual,
}

/// What the review is asked to do, in the operator's words.
pub open spec fn spec_instruction(run_id: Option<Seq<char>>) -> Seq<char> {
    match run_id {
        Some(id) => "Review this workflow, starting from run "@ + id + "."@,
        None => "Review this workflow against its history."@,
    }
}

/// The trigger and instruction of a review, starting from a failed run or not.
pub fn evolve_request(run_id: Option<&str>) -> (r: (EvolveTrigger, String))
    ensures
        r.1@ == spec_instruction(opt_text(run_id)),
        match run_id {
            Some(id) => r.0 matches EvolveTrigger::Failure(s) && s@ == id@,
            None => r.0 == EvolveTrigger::Manual,
        },
{
    match run_id {
        Some(id) => {
            let m = concat("Review this workflow, starting from run ", id);
            (EvolveTrigger::Failure(to_string(id)), concat(m.as_str(), "."))
        },
        None => (EvolveTrigger::Manual, to_string("Review this workflow against its history.")),
    }
}

/// A change a review proposes.
#[derive(Debug, Clone, PartialEq, Eq)]
pub struct Proposal {
    /// Why it is proposed.
    pub rationale: String,
    /// Whether it can be applied to the workflow as it stands.
    pub applicable: bool,
}

/// The lines a review's proposals add.
pub open spec fn proposal_lines(ps: Seq<Proposal>) -> Seq<Seq<char>>
    decreases ps.len(),
{
    if ps.len() == 0 {
        Seq::empty()
    } else {
        let p = ps.last();
        proposal_lines(ps.drop_last()).push(
            "~ proposed: "@ + trimmed(p.rationale@) + if p.applicable {
                Seq::empty()
            } else {
                " (will not apply)"@
            },
        )
    }
}

/// What a review persisted, line by line: how many notes it left (when it
/// left any), then each proposal, marked when it will not apply.
pub open spec fn spec_review_changes(notes: nat, ps: Seq<Proposal>) -> Seq<Seq<char>> {
    let head = if notes == 0 {
        Seq::empty()
    } else {
        seq!["+ "@ + crate::text::decimal(notes) + " note"@ + if notes == 1 {
            Seq::empty()
        } else {
            "s"@
        }]
    };
    head + proposal_lines(ps)
}

/// Format persisted review output for the workflow pane.
pub fn review_changes(notes: usize, proposals: &[Proposal]) -> (r: Vec<String>)
    ensures
        r@.map_values(|l: String| l@) == spec_review_changes(notes as nat, proposals@),
{
    let mut lines: Vec<String> = Vec::new();
    if notes > 0 {
        let mut l = to_string("+ ");
        push_decimal(&mut l, notes);
        let l = concat(l.as_str(), " note");
        let l = if notes == 1 {
            l
        } else {
            concat(l.as_str(), "s")
        };
        proof {
            reveal_strlit("");
        }
        lines.push(l);
    }
    let ghost head = lines@.map_values(|l: String| l@);
    assert(head =~= spec_review_changes(notes as nat, Seq::empty())) by {
        assert(proposal_lines(Seq::<Proposal>::empty()) =~= Seq::<Seq<char>>::empty());
    }
    let mut i: usize = 0;
    while i < proposals.len()
        invariant
            i <= proposals@.len(),
            head =~= spec_review_changes(notes as nat, Seq::empty()),
            lines@.map_values(|l: String| l@) == head + proposal_lines(proposals@.take(i as int)),
        decreases proposals@.len() - i,
    {
        assert(proposals@.take(i + 1).drop_last() =~= proposals@.take(i as int));
        assert(proposals@.take(i + 1).last() == proposals@[i as int]);
        let p = &proposals[i];
        let rationale = trimmed_chars(p.rationale.as_str());
        let rationale = string_from_chars(rationale.as_slice(), 0, rationale.len());
        let l = concat("~ proposed: ", rationale.as_str());
        let l = if p.applicable {
            l
        } else {
            concat(l.as_str(), " (will not apply)")
        };
        let ghost before = lines@.map_values(|l: String| l@);
        lines.push(l);
        proof {
            assert(rationale@ =~= trimmed(p.rationale@));
            if p.applicable {
                assert(l@ =~= "~ proposed: "@ + trimmed(p.rationale@) + Seq::<char>::empty());
            }
            assert(lines@.map_values(|l: String| l@) =~= before.push(l@));
            assert(head + proposal_lines(proposals@.take(i + 1)) =~= (head + proposal_lines(
                proposals@.take(i as int),
            )).push(l@));
        }
        i += 1;
    }
    proof {
        assert(proposals@.take(proposals@.len() as int) =~= proposals@);
        assert(head + proposal_lines(proposals@) =~= spec_review_changes(notes as nat, proposals@));
    }
    lines
}

/// What the workflow pane is told when a review ends.
#[derive(Debug, Clone, PartialEq, Eq)]
pub enum ReviewReply {
    /// The review finished (or one was already running): its reply and what
    /// it changed.
    Done {
        /// What the review answered.
        reply: String,
        /// What it persisted, line by line.
        changes: Vec<String>,
    },
    /// The review could not run.
    Failed {
        /// What it was asked to do.
        instruction: String,
        /// Why it failed.
        error: String,
    },
}

/// How a review turn ended.
#[derive(Debug, Clone, PartialEq, Eq)]
pub enum ReviewOutcome {
    /// Another review of the workflow was already running.
    Skipped,
    /// The review ran.
    Reviewed {
        /// Its reply.
        reply: String,
        /// How many notes it left.
        notes: usize,
        /// What it proposed.
        proposals: Vec<Proposal>,
    },
    /// The review could not run.
    Error(String),
}

/// What the pane is told of a review that ended with `outcome`, asked with
/// `instruction`.
pub fn review_reply(outcome: ReviewOutcome, instruction: String) -> (r: ReviewReply)
    ensures
        match outcome {
            ReviewOutcome::Skipped => r matches ReviewReply::Done { reply, changes } && reply@
                == "A review of this workflow is already running."@ && changes@.len() == 0,
            ReviewOutcome::Reviewed { reply: text, notes, proposals } => r matches ReviewReply::Done {
                reply,
                changes,
            } && reply@ == text@ && changes@.map_values(|l: String| l@) == spec_review_changes(
                notes as nat,
                proposals@,
            ),
            ReviewOutcome::Error(e) => r matches ReviewReply::Failed { instruction: i, error } && i@
                == instruction@ && error@ == e@,
        },
{
    match outcome {
        ReviewOutcome::Skipped => ReviewReply::Done {
            reply: to_string("A review of this workflow is already running."),
            changes: Vec::new(),
        },
        ReviewOutcome::Reviewed { reply, notes, proposals } => {
            let changes = review_changes(notes, proposals.as_slice());
            ReviewReply::Done { reply, changes }
        },
        ReviewOutcome::Error(error) => ReviewReply::Failed { instruction, error },
    }
}

} // verus!
