//! Compact, identity-bearing pointer targets for the rendered Agents rail.
//!
//! Pointer input arrives after drawing, when live lanes may have changed, so a
//! hit remembers the row's action and identity from the frame it was drawn in
//! rather than an offset into whatever the rail has become.

use vstd::prelude::*;

use crate::rail::{anchor_eq, anchor_of, rail_anchor, AgentLane, AgentRow, RailAnchor, RailRow};

verus! {

/// The pointer action a rendered rail line represents.
#[derive(Debug, Clone, PartialEq, Eq)]
pub enum RailHitTarget {
    /// A non-selectable label or divider.
    Inert,
    /// A selectable row with no direct pointer action.
    Selectable,
    /// The action row that starts something new on this machine.
    NewAgent,
    /// The action that starts a session for this agent.
    NewSession(String),
    /// The action that pages an agent lane's tasks.
    Overflow,
    /// A row attached to this local harness session.
    Session(String),
}

impl RailHitTarget {
    /// The local harness session this target names, if it names one.
    pub fn session_id(&self) -> (r: Option<String>)
        ensures
            match self {
                RailHitTarget::Session(s) => r is Some && r->0@ == s@,
                _ => r is None,
            },
    {
        match self {
            RailHitTarget::Session(session) => Some(session.clone()),
            _ => None,
        }
    }
}

/// What a drawn row's pointer action is: the create action, the overflow
/// counter, a row naming a session, any other selectable row, or nothing.
pub open spec fn spec_target_kind(row: RailRow) -> int {
    if row is NewHarness {
        0
    } else if row matches RailRow::Agent(AgentRow::More { .. }) {
        1
    } else if row.spec_session_id() is Some {
        2
    } else if row.spec_selectable() {
        3
    } else {
        4
    }
}

/// One rendered rail line and the cursor state it represented.
#[derive(Debug, Clone)]
pub struct RailHit {
    /// The action selected by this drawn line.
    pub target: RailHitTarget,
    /// The cursor identity resolved while the row was drawn.
    pub anchor: Option<RailAnchor>,
    /// The row's drawn offset, a fallback for rows without an identity.
    pub index: usize,
}

impl RailHit {
    /// Capture just what pointer routing needs from a drawn rail row.
    pub fn from_row(row: &RailRow, anchor: Option<RailAnchor>, index: usize) -> (r: Self)
        ensures
            r.anchor == anchor,
            r.index == index,
            spec_target_kind(*row) == 0 ==> r.target == RailHitTarget::NewAgent,
            spec_target_kind(*row) == 1 ==> r.target == RailHitTarget::Overflow,
            spec_target_kind(*row) == 2 ==> (r.target matches RailHitTarget::Session(s) && s@
                == row.spec_session_id()->0),
            spec_target_kind(*row) == 3 ==> r.target == RailHitTarget::Selectable,
            spec_target_kind(*row) == 4 ==> r.target == RailHitTarget::Inert,
    {
        let target = if row.is_new_harness() {
            RailHitTarget::NewAgent
        } else if match row {
            RailRow::Agent(AgentRow::More { .. }) => true,
            _ => false,
        } {
            RailHitTarget::Overflow
        } else if let Some(session) = row.session_id() {
            RailHitTarget::Session(crate::text::to_string(session))
        } else if row.selectable() {
            RailHitTarget::Selectable
        } else {
            RailHitTarget::Inert
        };
        RailHit { target, anchor, index }
    }

    /// Whether the current rail still contains the drawn row: it had an
    /// identity and some row of the rail carries it.
    pub fn exists_in(&self, rows: &[RailRow], lanes: &[AgentLane]) -> (r: bool)
        ensures
            r == match self.anchor {
                Some(a) => exists|i: int|
                    0 <= i < rows@.len() && #[trigger] anchor_of(rows@[i], lanes@) == Some(a@),
                None => false,
            },
    {
        match &self.anchor {
            None => false,
            Some(anchor) => {
                let mut i: usize = 0;
                while i < rows.len()
                    invariant
                        0 <= i <= rows@.len(),
                        self.anchor == Some(*anchor),
                        forall|j: int| 0 <= j < i ==> #[trigger] anchor_of(rows@[j], lanes@) != Some(anchor@),
                    decreases rows@.len() - i,
                {
                    let candidate = rail_anchor(&rows[i], lanes);
                    let hit = match &candidate {
                        Some(c) => anchor_eq(c, anchor),
                        None => false,
                    };
                    if hit {
                        assert(anchor_of(rows@[i as int], lanes@) == Some(anchor@));
                        return true;
                    }
                    i += 1;
                }
                false
            },
        }
    }

    /// Whether the cursor may land on this target.
    pub fn selectable(&self) -> (r: bool)
        ensures
            r == !(self.target is Inert),
    {
        match &self.target {
            RailHitTarget::Inert => false,
            _ => true,
        }
    }
}

} // verus!
