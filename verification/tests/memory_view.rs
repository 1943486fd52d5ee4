//! The Memory tab's lists.

use medulla_tui::memory_view::{
    entry_label, facets_line, list_window, overview_empty_notice, search_empty_notice,
    search_query_line, MemoryEntryModel, disabled_lines, overview_header, MemoryStatusModel,
};

#[test]
fn the_window_keeps_the_selection_near_the_middle_and_on_screen() {
    assert_eq!(list_window(0, 20, 6), (0, 0));
    assert_eq!(list_window(10, 20, 6), (7, 10));
    assert_eq!(list_window(19, 20, 6), (14, 19));
    assert_eq!(list_window(99, 20, 6), (14, 19), "the cursor is clamped to the last entry");
    assert_eq!(list_window(3, 4, 10), (0, 3), "a short list is never scrolled");
    assert_eq!(list_window(5, 0, 10), (0, 0));
    assert_eq!(list_window(2, 5, 0), (2, 2), "a pane shows at least one row");
}

#[test]
fn entries_are_labelled_by_kind() {
    assert_eq!(entry_label(&MemoryEntryModel::Directive("Prefer small diffs".into())), "◆ Prefer small diffs");
    assert_eq!(
        entry_label(&MemoryEntryModel::Directive("a".repeat(40))),
        format!("◆ {}…", "a".repeat(29))
    );
    assert_eq!(
        entry_label(&MemoryEntryModel::Facet { name: "style".into(), count: 12 }),
        "▪ style · 12"
    );
    assert_eq!(entry_label(&MemoryEntryModel::Hit("style · core · 0.91".into())), "style · core · 0.91");
}

#[test]
fn the_facet_line_tallies_every_facet() {
    assert_eq!(facets_line(&vec![]), "facets: (none)");
    assert_eq!(
        facets_line(&vec![("style".to_string(), 3), ("tools".to_string(), 10)]),
        "facets: style=3 tools=10"
    );
}

#[test]
fn empty_lists_say_why() {
    assert_eq!(overview_empty_notice(), "No directives or observations yet. Open Maintenance to backfill.");
    assert_eq!(search_empty_notice(true), "No hits for that query.");
    assert_eq!(search_empty_notice(false), "Run a search to rank observations across facets.");
    assert_eq!(search_query_line(None), "query: (none yet)");
    assert_eq!(search_query_line(Some("tabs vs spaces")), "query: tabs vs spaces");
}

#[test]
fn the_overview_header_reports_the_service_state() {
    let st = MemoryStatusModel {
        workspace: "/home/me/work".into(),
        pack_exists: false,
        pack_path: String::new(),
        entry_count: 42,
        directives_count: 3,
    };
    assert_eq!(
        overview_header(&st),
        vec![
            "● enabled · /home/me/work".to_string(),
            "pack ○ absent · press b to backfill".to_string(),
            "42 observation(s) · 3 directive(s)".to_string(),
            "r refresh · maintenance controls live on page 3".to_string(),
        ]
    );
    let present = MemoryStatusModel { pack_exists: true, pack_path: "/p/pack.md".into(), ..st };
    assert_eq!(overview_header(&present)[1], "pack ● present · /p/pack.md");
    assert_eq!(disabled_lines()[0], "Persona memory is not enabled.");
}
