//! Keys on the Memory pages.

use medulla_tui::memory_keys::{
    action_status, memory_page_key, reload_memory, MemoryAction, MemoryKey, MemoryKeyCode,
    MemoryPage,
};

#[test]
fn the_selection_stops_at_both_ends_of_the_list() {
    let mut index = 0;
    let handled = MemoryKey::Handled(MemoryAction::Nothing);
    assert_eq!(memory_page_key(MemoryPage::Overview, MemoryKeyCode::Up, &mut index, 3), handled);
    assert_eq!(index, 0);
    for _ in 0..5 {
        memory_page_key(MemoryPage::Overview, MemoryKeyCode::Char('j'), &mut index, 3);
    }
    assert_eq!(index, 2);
    memory_page_key(MemoryPage::Search, MemoryKeyCode::Char('k'), &mut index, 3);
    assert_eq!(index, 1);
    // An empty list holds the selection at the top.
    let mut empty = 4;
    memory_page_key(MemoryPage::Search, MemoryKeyCode::Down, &mut empty, 0);
    assert_eq!(empty, 0);
}

#[test]
fn each_page_answers_its_own_keys() {
    let mut index = 0;
    assert_eq!(
        memory_page_key(MemoryPage::Overview, MemoryKeyCode::Char('r'), &mut index, 1),
        MemoryKey::Handled(MemoryAction::Reload)
    );
    for code in [MemoryKeyCode::Enter, MemoryKeyCode::Char('/'), MemoryKeyCode::Char('q')] {
        assert_eq!(
            memory_page_key(MemoryPage::Search, code, &mut index, 1),
            MemoryKey::Handled(MemoryAction::OpenSearch)
        );
    }
    assert_eq!(
        memory_page_key(MemoryPage::Maintenance, MemoryKeyCode::Char('b'), &mut index, 1),
        MemoryKey::Handled(MemoryAction::StartIngest { backfill: true })
    );
    assert_eq!(
        memory_page_key(MemoryPage::Maintenance, MemoryKeyCode::Char('i'), &mut index, 1),
        MemoryKey::Handled(MemoryAction::StartIngest { backfill: false })
    );
    assert_eq!(
        memory_page_key(MemoryPage::Maintenance, MemoryKeyCode::Down, &mut index, 1),
        MemoryKey::Unhandled,
        "maintenance has no list to move through"
    );
    assert_eq!(
        memory_page_key(MemoryPage::Overview, MemoryKeyCode::Char('x'), &mut index, 1),
        MemoryKey::Unhandled
    );
}

#[test]
fn reloading_says_so() {
    assert_eq!(reload_memory(), MemoryKey::Handled(MemoryAction::Reload));
    assert_eq!(action_status(MemoryAction::Reload), Some("Memory · refreshing…"));
    assert_eq!(
        action_status(MemoryAction::OpenSearch),
        Some("Memory search · Enter run · Esc cancel")
    );
    assert_eq!(action_status(MemoryAction::Nothing), None);
}
