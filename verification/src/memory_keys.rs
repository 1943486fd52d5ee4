//! What a key does on the Memory pages: overview, search, and maintenance.

use vstd::prelude::*;

verus! {

/// The Memory page a key lands on.
#[derive(Debug, Clone, Copy, PartialEq, Eq, Structural)]
pub enum MemoryPage {
    /// Persona directives and facet summaries.
    Overview,
    /// Ranked search results.
    Search,
    /// Refresh and ingest.
    Maintenance,
}

/// A key as the Memory pages read it.
#[derive(Debug, Clone, Copy, PartialEq, Eq, Structural)]
pub enum MemoryKeyCode {
    /// Up arrow.
    Up,
    /// Down arrow.
    Down,
    /// Enter.
    Enter,
    /// A character.
    Char(char),
    /// Any other key.
    Other,
}

/// What the caller does after a Memory key.
#[derive(Debug, Clone, Copy, PartialEq, Eq, Structural)]
pub enum MemoryAction {
    /// Nothing more: the selection moved, or nothing changed.
    Nothing,
    /// Ask the event loop to refresh the memory status and persona directives.
    Reload,
    /// Open the persona-memory search prompt.
    OpenSearch,
    /// Start an ingest of new history, or a backfill of all of it.
    StartIngest {
        /// Whether to backfill everything rather than ingest what is new.
        backfill: bool,
    },
}

/// Whether the Memory page consumed a key, and what it asks for.
#[derive(Debug, Clone, Copy, PartialEq, Eq, Structural)]
pub enum MemoryKey {
    /// The page handled the key.
    Handled(MemoryAction),
    /// A structural or global binding may handle the key.
    Unhandled,
}

/// The status-bar text an action shows when it is taken.
pub fn action_status(action: MemoryAction) -> (r: Option<&'static str>)
    ensures
        r is Some <==> (action == MemoryAction::Reload || action == MemoryAction::OpenSearch),
        action == MemoryAction::Reload ==> r->0@ == "Memory · refreshing…"@,
        action == MemoryAction::OpenSearch ==> r->0@ == "Memory search · Enter run · Esc cancel"@,
{
    match action {
        MemoryAction::Reload => Some("Memory · refreshing…"),
        MemoryAction::OpenSearch => Some("Memory search · Enter run · Esc cancel"),
        _ => None,
    }
}

/// The selection after one step up or down a list of `count` entries: up
/// stops at the top, down at the last entry (the top, when there is none).
pub open spec fn stepped(index: usize, down: bool, count: usize) -> usize {
    if down {
        let max = if count == 0 {
            0
        } else {
            count - 1
        };
        if index + 1 < max {
            (index + 1) as usize
        } else {
            max as usize
        }
    } else if index == 0 {
        0
    } else {
        (index - 1) as usize
    }
}

/// What a key does on `page`, whose list has `count` entries (the overview's
/// entries, or the search hits): the selection and the answer.
pub open spec fn spec_memory_key(page: MemoryPage, code: MemoryKeyCode, index: usize, count: usize) -> (
    usize,
    MemoryKey,
) {
    let up = code == MemoryKeyCode::Up || code == MemoryKeyCode::Char('k');
    let down = code == MemoryKeyCode::Down || code == MemoryKeyCode::Char('j');
    match page {
        MemoryPage::Overview => if up || down {
            (stepped(index, down, count), MemoryKey::Handled(MemoryAction::Nothing))
        } else if code == MemoryKeyCode::Char('r') {
            (index, MemoryKey::Handled(MemoryAction::Reload))
        } else {
            (index, MemoryKey::Unhandled)
        },
        MemoryPage::Search => if up || down {
            (stepped(index, down, count), MemoryKey::Handled(MemoryAction::Nothing))
        } else if code == MemoryKeyCode::Enter || code == MemoryKeyCode::Char('/') || code
            == MemoryKeyCode::Char('q') {
            (index, MemoryKey::Handled(MemoryAction::OpenSearch))
        } else {
            (index, MemoryKey::Unhandled)
        },
        MemoryPage::Maintenance => if code == MemoryKeyCode::Char('r') {
            (index, MemoryKey::Handled(MemoryAction::Reload))
        } else if code == MemoryKeyCode::Char('b') || code == MemoryKeyCode::Char('i') {
            (
                index,
                MemoryKey::Handled(
                    MemoryAction::StartIngest { backfill: code == MemoryKeyCode::Char('b') },
                ),
            )
        } else {
            (index, MemoryKey::Unhandled)
        },
    }
}

/// `r` refreshes on every page whose help offers it, the overview and the
/// maintenance page, and leaves the selection where it is.
pub proof fn lemma_r_refreshes(page: MemoryPage, index: usize, count: usize)
    requires
        page == MemoryPage::Overview || page == MemoryPage::Maintenance,
    ensures
        spec_memory_key(page, MemoryKeyCode::Char('r'), index, count) == (
            index,
            MemoryKey::Handled(MemoryAction::Reload),
        ),
{
}

/// Handle a key on the active Memory page, moving the selection `index` in
/// a list of `count` entries.
pub fn memory_page_key(page: MemoryPage, code: MemoryKeyCode, index: &mut usize, count: usize) -> (r:
    MemoryKey)
    requires
        *old(index) < usize::MAX,
    ensures
        (*final(index), r) == spec_memory_key(page, code, *old(index), count),
{
    let up = code == MemoryKeyCode::Up || code == MemoryKeyCode::Char('k');
    let down = code == MemoryKeyCode::Down || code == MemoryKeyCode::Char('j');
    if page != MemoryPage::Maintenance && (up || down) {
        if down {
            let max = if count == 0 {
                0
            } else {
                count - 1
            };
            *index = if *index + 1 < max {
                *index + 1
            } else {
                max
            };
        } else if *index > 0 {
            *index = *index - 1;
        }
        return MemoryKey::Handled(MemoryAction::Nothing);
    }
    match page {
        MemoryPage::Overview => if code == MemoryKeyCode::Char('r') {
            reload_memory()
        } else {
            MemoryKey::Unhandled
        },
        MemoryPage::Search => if code == MemoryKeyCode::Enter || code == MemoryKeyCode::Char('/')
            || code == MemoryKeyCode::Char('q') {
            MemoryKey::Handled(MemoryAction::OpenSearch)
        } else {
            MemoryKey::Unhandled
        },
        MemoryPage::Maintenance => if code == MemoryKeyCode::Char('r') {
            reload_memory()
        } else if code == MemoryKeyCode::Char('b') || code == MemoryKeyCode::Char('i') {
            MemoryKey::Handled(
                MemoryAction::StartIngest { backfill: code == MemoryKeyCode::Char('b') },
            )
        } else {
            MemoryKey::Unhandled
        },
    }
}

/// Ask the event loop to refresh the memory status and persona directives.
pub fn reload_memory() -> (r: MemoryKey)
    ensures
        r == MemoryKey::Handled(MemoryAction::Reload),
{
    MemoryKey::Handled(MemoryAction::Reload)
}

} // verus!
