//! Startup decisions.

use medulla_tui::startup::{startup_notice, startup_status, write_back_target};

#[test]
fn write_backs_go_to_the_file_that_wins_next_launch() {
    let sources = vec!["/home/me/.medulla/config.toml".to_string(), "/repo/medulla.toml".to_string()];
    assert_eq!(write_back_target(Some("/x.toml"), &sources, "/home/c.toml"), "/x.toml");
    assert_eq!(write_back_target(None, &sources, "/home/c.toml"), "/repo/medulla.toml");
    assert_eq!(write_back_target(None, &[], "/home/c.toml"), "/home/c.toml");
}

#[test]
fn the_first_status_is_the_most_interesting_one() {
    let some = |s: &str| Some(s.to_string());
    assert_eq!(startup_notice(some("mock"), some("tp"), some("log")), some("mock"));
    assert_eq!(startup_notice(None, some("tp"), some("log")), some("log").and(some("tp")));
    assert_eq!(startup_notice(None, None, some("log")), some("log"));
    assert_eq!(startup_notice(None, None, None), None);
}

#[test]
fn startup_reports_the_runtime_it_fell_back_to_first() {
    let some = |s: &str| Some(s.to_string());
    assert_eq!(
        startup_status(Some("locked"), true, Some("no backend"), Some("port taken")),
        some("running the offline mock runtime (--mock)")
    );
    assert_eq!(
        startup_status(Some("locked"), false, Some("nobody signed in"), None),
        some("nobody signed in — running the offline mock runtime")
    );
    assert_eq!(
        startup_status(Some("locked"), false, None, Some("port taken")),
        some("memory service failed to open (locked)")
    );
    assert_eq!(
        startup_status(None, false, None, Some("port taken")),
        some("not hosting on this device (port taken)")
    );
    assert_eq!(startup_status(None, false, None, None), None);
}
