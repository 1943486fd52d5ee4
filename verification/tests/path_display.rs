//! Home-directory compaction of the paths shown on the rail.

use medulla_tui::path_display::short_home;

#[test]
fn homes_compact_only_their_own_path_prefix() {
    let home = Some("/Users/dev");
    assert_eq!(short_home("/Users/dev/work/repo", home), "~/work/repo");
    assert_eq!(short_home("/Users/dev", home), "~");
    assert_eq!(short_home("/Users/developer/x", home), "/Users/developer/x");
    assert_eq!(short_home("/srv/repos/auth", None), "/srv/repos/auth");
}

#[test]
fn a_windows_home_collapses_on_its_own_separator() {
    let home = Some("C:\\Users\\dev");
    assert_eq!(short_home("C:\\Users\\dev\\work\\repo", home), "~\\work\\repo");
    assert_eq!(short_home("D:\\src\\other", home), "D:\\src\\other");
}

#[test]
fn an_empty_home_compacts_nothing() {
    assert_eq!(short_home("/work/repo", Some("")), "/work/repo");
    assert_eq!(short_home("", Some("/Users/dev")), "");
}
