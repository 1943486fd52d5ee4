//! The Status line page's rows: what each persists under, what it is called,
//! and how the selection moves.

use medulla_tui::status_line::{
    move_status_line_index, row_field, StatusLineField, STATUS_LINE_ROW_COUNT,
};

#[test]
fn every_row_persists_under_its_own_key() {
    let keys: Vec<&str> = (0..STATUS_LINE_ROW_COUNT).map(|i| row_field(i).key()).collect();
    for (i, k) in keys.iter().enumerate() {
        assert!(!keys[..i].contains(k), "{k} is persisted twice");
    }
    assert_eq!(keys[0], "state");
    assert_eq!(keys[4], "harnessStyle");
    assert_eq!(keys[14], "pathStyle");
}

#[test]
fn names_are_spelled_out_in_full() {
    assert_eq!(StatusLineField::Control.name(), "managed / unmanaged");
    assert_eq!(StatusLineField::BranchWhen.name(), "git branch shown");
    assert_eq!(row_field(12).name(), "working path");
}

#[test]
fn an_index_past_the_end_selects_the_last_row() {
    assert_eq!(row_field(STATUS_LINE_ROW_COUNT), StatusLineField::PathStyle);
    assert_eq!(row_field(usize::MAX), StatusLineField::PathStyle);
}

#[test]
fn the_selection_stops_at_both_ends() {
    assert_eq!(move_status_line_index(0, true), 0);
    assert_eq!(move_status_line_index(3, true), 2);
    assert_eq!(move_status_line_index(3, false), 4);
    assert_eq!(move_status_line_index(STATUS_LINE_ROW_COUNT - 1, false), STATUS_LINE_ROW_COUNT - 1);
    assert_eq!(move_status_line_index(40, false), STATUS_LINE_ROW_COUNT - 1);
}
