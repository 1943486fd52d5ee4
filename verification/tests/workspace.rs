//! Ranking and remembering workspaces for the manual harness launcher.

use medulla_tui::workspace::{
    completion_target,
    folder_matches, fuzzy_subsequence_score, match_score_with_name, rank_workspace_choices,
    remember_recent, absolute, known_workspaces, match_score, offers_folders, HostWorkspaces,
    HarnessPicker, HarnessPickerStep, WorkspaceChoice,
};

#[test]
fn fuzzy_matching_accepts_tight_subsequences_and_rejects_missing_characters() {
    assert!(fuzzy_subsequence_score("workflow-medulla", "wfm").is_some());
    assert!(
        fuzzy_subsequence_score("workflow-medulla", "workflow")
            < fuzzy_subsequence_score("workflow-medulla", "wfm")
    );
    assert_eq!(fuzzy_subsequence_score("workflow-medulla", "xyz"), None);
}

#[test]
fn fuzzy_scores_are_exact() {
    assert_eq!(fuzzy_subsequence_score("anything", ""), Some(0));
    assert_eq!(fuzzy_subsequence_score("workflow-medulla", "workflow"), Some(8));
    // w at 0 (1), f three bytes on (4), m four bytes on (5), plus 13 extra bytes.
    assert_eq!(fuzzy_subsequence_score("workflow-medulla", "wfm"), Some(23));
    // Offsets are counted in bytes: the two-byte 'é' is skipped as two.
    assert_eq!(fuzzy_subsequence_score("éa", "a"), Some(3 + 2));
}

#[test]
fn exact_and_prefix_matches_rank_ahead_of_fuzzy_ones() {
    assert_eq!(match_score_with_name("/work/Alpha", "  ", Some("Alpha")), Some(0));
    assert_eq!(match_score_with_name("/work/Alpha", "/WORK/alpha", Some("Alpha")), Some(0));
    assert_eq!(match_score_with_name("/work/Alpha", "/work/al", Some("Alpha")), Some(1));
    // Fuzzy against the final component: "alpha" starts with "al".
    assert_eq!(match_score_with_name("/work/Alpha", " al ", Some("Alpha")), Some(3 + 10));
    // The component misses; the whole path is tried next.
    assert_eq!(match_score_with_name("/work/beta", "wb", Some("beta")), Some(2 + 5 + 8 + 10));
    assert_eq!(match_score_with_name("/work/beta", "zz", Some("beta")), None);
}

fn choice(path: &str, source: &'static str) -> WorkspaceChoice {
    WorkspaceChoice { path: path.to_string(), source }
}

#[test]
fn choices_rank_by_score_then_path_once_each_and_at_most_ten() {
    let ranked = vec![
        (11, choice("/b", "recent")),
        (0, choice("/z", "default")),
        (11, choice("/a", "registered")),
        (0, choice("/z", "registered")),
        (1, choice("/b", "folder")),
    ];
    let out = rank_workspace_choices(ranked);
    let listed: Vec<(&str, &str)> = out.iter().map(|c| (c.path.as_str(), c.source)).collect();
    assert_eq!(listed, vec![("/z", "default"), ("/b", "folder"), ("/a", "registered")]);

    let many: Vec<(usize, WorkspaceChoice)> =
        (0..15).map(|i| (i, choice(&format!("/p{i:02}"), "folder"))).collect();
    let out = rank_workspace_choices(many);
    assert_eq!(out.len(), 10);
    assert_eq!(out[0].path, "/p00");
    assert_eq!(out[9].path, "/p09");
}

#[test]
fn a_launch_moves_its_workspace_to_the_front_of_the_recent_list() {
    let mut recent: Vec<String> = (0..12).map(|i| format!("/w{i}")).collect();
    remember_recent(&mut recent, "/w5");
    assert_eq!(recent.len(), 12);
    assert_eq!(recent[0], "/w5");
    assert_eq!(recent.iter().filter(|w| *w == "/w5").count(), 1);

    remember_recent(&mut recent, "/new");
    assert_eq!(recent.len(), 12);
    assert_eq!(recent[0], "/new");
    assert_eq!(recent[1], "/w5");
    assert!(!recent.contains(&"/w11".to_string()), "the oldest falls off the end");
}

#[test]
fn the_workspace_step_starts_from_the_default_or_empty_and_completes_the_highlight() {
    let mut picker = HarnessPicker {
        cwd: "/home/dev/repo".into(),
        step: HarnessPickerStep::Harness,
        workspace_query: "stale".into(),
        workspace_choices: Vec::new(),
        workspace_index: 4,
    };
    picker.open_workspace_step(true);
    assert_eq!(picker.step, HarnessPickerStep::Workspace);
    assert_eq!(picker.workspace_query, "/home/dev/repo");
    assert_eq!(picker.workspace_index, 0);
    picker.open_workspace_step(false);
    assert_eq!(picker.workspace_query, "");

    picker.workspace_index = 7;
    picker.set_workspace_choices(vec![choice("/a", "recent"), choice("/b", "folder")]);
    assert_eq!(picker.workspace_index, 1, "the highlight stays on a choice");
    assert_eq!(picker.selected_choice().as_deref(), Some("/b"));
    assert!(picker.complete_workspace());
    assert_eq!(picker.workspace_query, "/b");
    assert_eq!(picker.workspace_index, 0);

    picker.set_workspace_choices(Vec::new());
    assert_eq!(picker.selected_choice(), None);
    assert!(!picker.complete_workspace());
}

#[test]
fn folder_completion_scores_matching_children_only() {
    let dirs = vec![
        ("project-alpha".to_string(), "/w/project-alpha".to_string()),
        ("Project-Beta".to_string(), "/w/Project-Beta".to_string()),
        ("other".to_string(), "/w/other".to_string()),
    ];
    let matches = folder_matches("pb", &dirs);
    assert_eq!(matches.len(), 1);
    assert_eq!(matches[0].1, "/w/Project-Beta");
    // An empty needle lists every child, each scoring zero.
    assert_eq!(folder_matches("", &dirs).iter().map(|m| m.0).collect::<Vec<_>>(), vec![0, 0, 0]);
    // A prefix scores what is left after it.
    assert_eq!(folder_matches("PROJECT-", &dirs)[0], (5, "/w/project-alpha".to_string()));
}

#[test]
fn the_file_name_ranks_ahead_of_the_whole_path() {
    // "proj" is the final component exactly, so it scores as a tight fuzzy match
    // of the name rather than of the longer whole path.
    assert_eq!(match_score("/x/proj", "proj"), Some(10));
    assert_eq!(match_score_with_name("/x/proj", "proj", None), Some(20));
    assert_eq!(match_score("/x/proj/", "proj"), Some(10));
    assert_eq!(match_score("/x/..", "x"), Some(16));
}

#[test]
fn fuzzy_matches_are_exactly_the_in_order_subsequences() {
    assert_eq!(fuzzy_subsequence_score("medulla", ""), Some(0));
    assert_eq!(fuzzy_subsequence_score("medulla", "med"), Some(4));
    assert!(fuzzy_subsequence_score("medulla", "mda").is_some());
    assert_eq!(fuzzy_subsequence_score("medulla", "adm"), None);
    let s = fuzzy_subsequence_score("medulla", "mla").unwrap();
    assert!(s >= "medulla".len() - "mla".len());
}

#[test]
fn relative_configured_paths_are_resolved_against_the_host_workspace() {
    assert_eq!(absolute("proj/a", "/home/me"), "/home/me/proj/a");
    assert_eq!(absolute("/srv/b", "/home/me"), "/srv/b");
}

#[test]
fn known_workspaces_come_recent_first_and_skip_blank_registrations() {
    let recent = vec!["r1".to_string(), "/abs/r2".to_string()];
    let host_workspaces = vec!["w".to_string()];
    let hosts = vec![
        HostWorkspaces { workspace: "  ".to_string(), workspaces: vec!["/o/1".to_string()] },
        HostWorkspaces { workspace: "main".to_string(), workspaces: vec![] },
    ];
    let known = known_workspaces(&recent, "dflt", "", &host_workspaces, &hosts, "/base");
    let expected: Vec<(String, &str)> = vec![
        ("/base/r1".to_string(), "recent"),
        ("/abs/r2".to_string(), "recent"),
        ("dflt".to_string(), "default"),
        ("/base/w".to_string(), "registered"),
        ("/o/1".to_string(), "registered"),
        ("/base/main".to_string(), "registered"),
    ];
    assert_eq!(known, expected);
}

#[test]
fn folders_are_offered_only_for_a_typed_query() {
    assert!(!offers_folders(""));
    assert!(!offers_folders("   "));
    assert!(offers_folders(" a"));
}

#[test]
fn a_trailing_current_directory_names_the_directory_before_it() {
    assert_eq!(match_score("/x/proj/.", "proj"), Some(10));
}

#[test]
fn relative_paths_are_joined_with_one_separator() {
    assert_eq!(absolute("a", "/base/"), "/base/a");
    assert_eq!(absolute("a/b", "/base"), "/base/a/b");
    assert_eq!(absolute("a", ""), "a");
}

#[test]
fn fuzzy_matching_walks_multibyte_characters_by_their_utf8_bytes() {
    assert_eq!(fuzzy_subsequence_score("héllo", "hl"), Some(8));
    assert_eq!(fuzzy_subsequence_score("任务管理", "管"), Some(16));
    assert_eq!(fuzzy_subsequence_score("任务管理", "理管"), None);
}

#[test]
fn a_typed_path_completes_in_its_parent_folder() {
    assert_eq!(completion_target("/home/me/"), ("/home/me/".to_string(), String::new()));
    assert_eq!(completion_target("/home/me/pro"), ("/home/me".to_string(), "pro".to_string()));
    assert_eq!(completion_target("pro"), (String::new(), "pro".to_string()));
    assert_eq!(completion_target(""), (".".to_string(), String::new()));
}
