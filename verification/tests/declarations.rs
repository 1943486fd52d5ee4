//! Worker specs a host advertises from its agent declarations.

use medulla_tui::declarations::{
    check_placement, seed_for, shares_harness, specs_for, specs_from, AgentDeclaration,
    DeclaredWorkspace,
};

fn decl(id: &str, harness: &str, workspace: Option<(&str, &str)>) -> AgentDeclaration {
    AgentDeclaration {
        agent_id: id.into(),
        name: None,
        harness: harness.into(),
        workspace: workspace.map(|(path, resolved)| DeclaredWorkspace {
            path: path.into(),
            resolved: resolved.into(),
        }),
        roles: vec!["coder".into()],
        max_sessions: 2,
    }
}

fn ids(decls: &[AgentDeclaration]) -> Vec<String> {
    decls.iter().map(|d| d.agent_id.clone()).collect()
}

#[test]
fn a_colliding_seed_takes_the_first_free_fallback() {
    let seeds = vec![decl("aider", "aider", None), decl("aider", "aider", None)];
    let forbidden = vec!["aider".to_string(), "aider-fallback-1".to_string()];
    let out = seed_for(&seeds, &forbidden);
    assert_eq!(ids(&out), vec!["aider-fallback-2", "aider-fallback-3"]);
    assert_eq!(out[0].harness, "aider");
    assert_eq!(out[1].roles, vec!["coder".to_string()]);
}

#[test]
fn seeds_keep_their_ids_when_nothing_collides() {
    let seeds = vec![decl("aider", "aider", None), decl("goose", "goose", None)];
    assert_eq!(ids(&seed_for(&seeds, &[])), vec!["aider", "goose"]);
}

#[test]
fn fallbacks_count_past_nine() {
    let mut forbidden = vec!["a".to_string()];
    for k in 1..=10 {
        forbidden.push(format!("a-fallback-{k}"));
    }
    let out = seed_for(&[decl("a", "aider", None)], &forbidden);
    assert_eq!(ids(&out), vec!["a-fallback-11"]);
}

#[test]
fn sharing_a_harness_needs_a_second_user() {
    let decls = vec![decl("a", "aider", None), decl("b", "aider", None), decl("c", "goose", None)];
    assert!(shares_harness(&decls, &decls[0]));
    assert!(!shares_harness(&decls, &decls[2]));
}

#[test]
fn labels_fall_back_from_the_name_to_the_host() {
    let mut named = decl("a", "aider", None);
    named.name = Some("Triage".into());
    let decls = vec![named, decl("b", "aider", None), decl("c", "goose", None)];
    let specs = specs_from(&decls, "host-1", "/work", "studio");
    assert_eq!(specs[0].name, "Triage");
    assert_eq!(specs[1].name, "studio · b", "a shared harness is told apart by id");
    assert_eq!(specs[2].name, "studio · goose");
    assert_eq!(specs[2].description, "goose on this machine · /work");
    assert_eq!(specs[2].host_id, "host-1");
    assert_eq!(specs[2].address, "host-1");
    assert_eq!(specs[2].workspace_path, "/work");
    assert_eq!(specs[2].max_sessions, 2);

    let alone = specs_from(&[decl("b", "aider", None)], "host-1", "/work", "studio");
    assert_eq!(alone[0].name, "studio");
}

#[test]
fn a_declaration_elsewhere_is_refused_with_a_problem() {
    let ok = decl("a", "aider", Some(("./", "/work")));
    assert_eq!(check_placement(&ok, "h", "/work"), Ok(()));
    assert_eq!(check_placement(&decl("n", "aider", None), "h", "/work"), Ok(()));
    let bad = decl("b", "aider", Some(("~/other", "/home/u/other")));
    let problem = check_placement(&bad, "h", "/work").unwrap_err();
    assert!(problem.starts_with("agent \"b\" is declared in ~/other, but host \"h\" runs tasks in"));
    assert!(problem.contains("/work — every agent on a host works in the host's directory"));
    assert!(problem.ends_with("[[hosts]] entry for ~/other and put this agent on it"));
}

#[test]
fn misplaced_declarations_are_dropped_and_reported() {
    let mine = vec![
        decl("a", "aider", Some(("/work", "/work"))),
        decl("b", "goose", Some(("/else", "/else"))),
    ];
    let (specs, problems) = specs_for("h", "/work", "studio", &mine, &[decl("seed", "aider", None)]);
    assert_eq!(specs.iter().map(|s| s.id.as_str()).collect::<Vec<_>>(), vec!["a"]);
    assert_eq!(problems.len(), 1);
    assert!(problems[0].contains("agent \"b\""));
}

#[test]
fn a_host_with_nothing_valid_falls_back_to_seeds_that_do_not_impersonate() {
    let mine = vec![decl("aider", "aider", Some(("/else", "/else")))];
    let seeds = vec![decl("aider", "aider", None)];
    let (specs, problems) = specs_for("h", "/work", "studio", &mine, &seeds);
    assert_eq!(problems.len(), 1);
    assert_eq!(specs.len(), 1);
    assert_eq!(specs[0].id, "aider-fallback-1");
}

#[test]
fn a_host_with_no_declarations_advertises_its_seeds() {
    let seeds = vec![decl("aider", "aider", None), decl("goose", "goose", None)];
    let (specs, problems) = specs_for("h", "/work", "studio", &[], &seeds);
    assert!(problems.is_empty());
    assert_eq!(specs.iter().map(|s| s.id.as_str()).collect::<Vec<_>>(), vec!["aider", "goose"]);
    assert_eq!(specs[0].name, "studio · aider");
}
