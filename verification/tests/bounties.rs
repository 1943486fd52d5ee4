//! The bounty pages' decisions.

use medulla_tui::bounties::{card_marker, card_progress, bounty_complete, bounty_layout, compact_bounty_line, progress_bar, BountyLayout};

#[test]
fn narrow_panes_get_compact_lines() {
    assert_eq!(bounty_layout(89), BountyLayout::Compact);
    assert_eq!(bounty_layout(90), BountyLayout::Cards);
}

#[test]
fn a_bounty_is_complete_exactly_at_its_target() {
    assert!(bounty_complete(3, 3));
    assert!(!bounty_complete(2, 3));
    assert!(!bounty_complete(4, 3));
}

#[test]
fn the_compact_line_pads_the_title() {
    assert_eq!(
        compact_bounty_line("Ship a PR", 1, 1, "+50 pts"),
        format!("✓ {:<22} 1/1  +50 pts", "Ship a PR")
    );
    assert_eq!(
        compact_bounty_line("Run three workflows end to end", 0, 3, "+100 pts"),
        "○ Run three workflows end to end 0/3  +100 pts"
    );
}

#[test]
fn the_progress_bar_is_clamped_and_proportional() {
    assert_eq!(progress_bar(60, 120, 400), (20, 6));
    assert_eq!(progress_bar(10, 120, 400), (8, 2));
    assert_eq!(progress_bar(200, 120, 400), (32, 9));
}

#[test]
fn cards_are_headed_by_their_state() {
    assert_eq!(card_marker(3, 3), "✓ COMPLETE");
    assert_eq!(card_marker(1, 3), "○ IN PROGRESS");
    assert_eq!(card_progress("+50 pts", 1, 3), "+50 pts  1/3");
}
