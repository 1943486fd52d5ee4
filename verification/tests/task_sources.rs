//! The Tasks tab's source page.

use medulla_tui::task_sources::{task_sources_view, TaskSourceModel};

fn source(repository: &str, enabled: bool, token: Option<&str>) -> TaskSourceModel {
    TaskSourceModel {
        repository: repository.to_string(),
        provider: "github".to_string(),
        state: "open".to_string(),
        labels: vec!["bug".to_string(), "help wanted".to_string()],
        filter: None,
        token: token.map(|t| t.to_string()),
        enabled,
    }
}

#[test]
fn an_empty_source_list_invites_adding_one() {
    let view = task_sources_view(&[], 3);
    assert_eq!(view.rows, vec!["No sources configured · press a to add GitHub".to_string()]);
    assert_eq!(
        view.detail,
        "Add a GitHub repository source to synchronize open issues into the local task list."
    );
}

#[test]
fn the_selected_source_is_marked_and_detailed() {
    let sources = vec![
        source("tinyhumansai/medulla", true, None),
        source("tinyhumansai/a-repository-with-a-very-long-name", false, Some("ghp_secret")),
    ];
    let view = task_sources_view(&sources, 7);
    assert_eq!(view.rows[0], "  tinyhumansai/medulla · enabled");
    assert_eq!(view.rows[1], "▸ tinyhumansai/a-repository-wit… · disabled");
    assert_eq!(
        view.detail,
        "tinyhumansai/a-repository-with-a-very-long-name\n\nprovider: github\nstate filter: open\nlabels: bug, help wanted\ncustom filter: (none)\ncredentials: configured"
    );
    assert!(!view.detail.contains("ghp_secret"), "the token itself is never shown");

    let first = task_sources_view(&sources, 0);
    assert!(first.rows[0].starts_with("▸ "));
    assert!(first.detail.ends_with("credentials: GITHUB_TOKEN / default"));
}

#[test]
fn sources_without_labels_or_filter_say_none() {
    let mut s = source("o/r", true, None);
    s.labels.clear();
    s.filter = Some("is:issue".to_string());
    let view = task_sources_view(&[s], 0);
    assert_eq!(
        view.detail,
        "o/r\n\nprovider: github\nstate filter: open\nlabels: (none)\ncustom filter: is:issue\ncredentials: GITHUB_TOKEN / default"
    );
}
