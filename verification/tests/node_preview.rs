//! The workflow step preview's view of a step's configuration.

use medulla_tui::node_preview::{
    agent_output, code_rows, get, kind_preview, redact, secret_key, source_lines, source_style,
    agent_defaults, clamp_preview_scroll, flow_texts, without_keys, AgentDefaults, Edge, Json,
    KindPreview, SourceStyle, labelled_rows, language_badge, missing_source_notice, value_text,
    ValueText, metadata_text, scalar_text,
};

fn s(text: &str) -> Json {
    Json::Str(text.into())
}

fn obj(fields: Vec<(&str, Json)>) -> Json {
    Json::Object(fields.into_iter().map(|(k, v)| (k.to_string(), v)).collect())
}

#[test]
fn generic_detail_redacts_credential_shaped_fields_recursively() {
    let config = obj(vec![
        ("method", s("POST")),
        ("url", s("https://example.test")),
        ("headers", obj(vec![("Authorization", s("Bearer private")), ("X-Trace", s("visible"))])),
        ("api_key", s("private")),
    ]);
    let out = redact(&config);
    let expected = obj(vec![
        ("method", s("POST")),
        ("url", s("https://example.test")),
        ("headers", obj(vec![("Authorization", s("••••")), ("X-Trace", s("visible"))])),
        ("api_key", s("••••")),
    ]);
    assert_eq!(out, expected);
}

#[test]
fn a_secret_is_masked_whatever_its_shape() {
    let config = Json::Array(vec![obj(vec![
        ("clientSecret", obj(vec![("nested", s("x"))])),
        ("PASSWORD", Json::Number("1234".into())),
        ("tokens_used", Json::Number("3".into())),
        ("name", Json::Null),
        ("flag", Json::Bool(true)),
    ])]);
    let expected = Json::Array(vec![obj(vec![
        ("clientSecret", s("••••")),
        ("PASSWORD", s("••••")),
        ("tokens_used", s("••••")),
        ("name", Json::Null),
        ("flag", Json::Bool(true)),
    ])]);
    assert_eq!(redact(&config), expected);
    // Masking twice changes nothing more.
    assert_eq!(redact(&redact(&config)), expected);
}

#[test]
fn secret_names_are_matched_without_regard_to_case() {
    assert!(secret_key("X-Api_Key"));
    assert!(secret_key("Authorization"));
    assert!(secret_key("refreshToken"));
    assert!(!secret_key("X-Trace"));
    assert!(!secret_key("api-key"), "only the underscore spelling is listed");
}

#[test]
fn agent_output_unwraps_the_engine_envelope() {
    let item = |text: &str| obj(vec![("json", obj(vec![("text", s(text))]))]);
    assert_eq!(agent_output(&Json::Array(vec![item("done")])), s("done"));
    assert_eq!(
        agent_output(&Json::Array(vec![item("one"), s("noise"), item("two")])),
        Json::Array(vec![s("one"), s("two")])
    );
    let plain = obj(vec![("result", Json::Number("7".into()))]);
    assert_eq!(agent_output(&plain), obj(vec![("result", Json::Number("7".into()))]));
    let no_text = Json::Array(vec![obj(vec![("json", obj(vec![("text", Json::Null)]))])]);
    assert_eq!(
        agent_output(&no_text),
        Json::Array(vec![obj(vec![("json", obj(vec![("text", Json::Null)]))])])
    );
}

#[test]
fn lookups_take_the_first_field_of_a_name() {
    let value = obj(vec![("a", s("first")), ("a", s("second"))]);
    assert_eq!(get(&value, "a"), Some(&s("first")));
    assert_eq!(get(&value, "b"), None);
    assert_eq!(get(&s("a"), "a"), None);
}

#[test]
fn the_headline_keys_are_left_out_of_the_rest() {
    let config = obj(vec![("method", s("GET")), ("url", s("u")), ("body", s("b"))]);
    let rest = without_keys(&config, &["method", "url"]);
    assert_eq!(rest, vec![("body".to_string(), s("b"))]);
    assert!(without_keys(&s("x"), &["method"]).is_empty());
}

#[test]
fn source_is_split_like_str_lines() {
    assert_eq!(source_lines("a\r\nb\n"), vec!["a", "b"]);
    assert_eq!(source_lines("a\n\nb"), vec!["a", "", "b"]);
    assert_eq!(source_lines("\n"), vec![""]);
    assert_eq!(source_lines("\r"), vec!["\r"], "a lone carriage return is text");
    assert!(source_lines("").is_empty());
}

#[test]
fn comments_and_openers_are_coloured() {
    assert_eq!(source_style("  # note", "shell"), SourceStyle::Comment);
    assert_eq!(source_style("// note", "python"), SourceStyle::Comment);
    assert_eq!(source_style("    return f", "python"), SourceStyle::Keyword);
    assert_eq!(source_style("export const x = 1", "javascript"), SourceStyle::Keyword);
    assert_eq!(source_style("def f():", "javascript"), SourceStyle::Plain);
    assert_eq!(source_style("returned", "python"), SourceStyle::Plain);
}

#[test]
fn code_steps_have_a_language_badge_and_numbered_source() {
    let config = obj(vec![
        ("language", s("python")),
        ("source", s("def greet(name):\n    return f\"hi {name}\"")),
    ]);
    let preview = kind_preview("code", &config);
    let KindPreview::Code { source, language } = preview else {
        panic!("a code step previews as code");
    };
    assert_eq!(language, "python");
    let rows = code_rows(&source, &language);
    assert_eq!(rows.len(), 2);
    assert_eq!(format!("{}{}", rows[0].gutter, rows[0].text), "1 │ def greet(name):");
    assert!(format!("{}{}", rows[1].gutter, rows[1].text).starts_with("2 │     return"));
    assert_eq!(rows[0].style, SourceStyle::Keyword);
}

#[test]
fn gutters_right_align_to_the_widest_number() {
    let source = (1..=10).map(|i| i.to_string()).collect::<Vec<_>>().join("\n");
    let rows = code_rows(&source, "shell");
    assert_eq!(rows[0].gutter, " 1 │ ");
    assert_eq!(rows[9].gutter, "10 │ ");
}

#[test]
fn shell_tool_steps_use_the_same_code_viewer() {
    let config = obj(vec![
        ("slug", s("medulla:shell")),
        ("args", obj(vec![("language", s("shell")), ("script", s("cargo test\ncargo clippy"))])),
    ]);
    let KindPreview::Code { source, language } = kind_preview("tool_call", &config) else {
        panic!("a shell call previews as code");
    };
    assert_eq!(language, "shell");
    let rows = code_rows(&source, &language);
    assert_eq!(format!("{}{}", rows[0].gutter, rows[0].text), "1 │ cargo test");
    assert_eq!(format!("{}{}", rows[1].gutter, rows[1].text), "2 │ cargo clippy");
}

#[test]
fn each_kind_gets_its_own_presentation() {
    assert_eq!(
        kind_preview("code", &obj(vec![("code", s("x = 1"))])),
        KindPreview::Code { source: "x = 1".into(), language: "javascript".into() }
    );
    assert_eq!(
        kind_preview("code", &obj(vec![("source", Json::Number("5".into())), ("code", s("x"))])),
        KindPreview::Code { source: "".into(), language: "javascript".into() },
        "a source that is not text is no source, and the code field is not consulted"
    );
    assert_eq!(
        kind_preview(
            "agent",
            &obj(vec![("model", s("m")), ("harness", Json::Null), ("task", s("do it"))])
        ),
        KindPreview::Agent { metadata: vec![("model".into(), s("m"))], prompt: s("do it") }
    );
    assert_eq!(
        kind_preview("http_request", &obj(vec![("url", s("u")), ("body", s("b"))])),
        KindPreview::Request {
            method: "GET".into(),
            url: "u".into(),
            rest: vec![("body".into(), s("b"))],
        }
    );
    assert_eq!(
        kind_preview("tool_call", &obj(vec![("slug", s("web:search"))])),
        KindPreview::Tool { slug: "web:search".into(), args: Json::Null }
    );
    assert_eq!(
        kind_preview("condition", &obj(vec![("condition", s("a > b"))])),
        KindPreview::Labelled { label: "condition".into(), value: s("a > b") }
    );
    assert_eq!(
        kind_preview("merge", &obj(vec![("x", s("y"))])),
        KindPreview::Labelled { label: "mapping".into(), value: obj(vec![("x", s("y"))]) }
    );
    assert_eq!(
        kind_preview("trigger", &obj(vec![])),
        KindPreview::Labelled { label: "trigger".into(), value: Json::Null }
    );
    assert_eq!(
        kind_preview("mystery", &Json::Bool(true)),
        KindPreview::Labelled { label: "config".into(), value: Json::Bool(true) }
    );
}

#[test]
fn the_flow_line_names_what_leads_in_and_out() {
    let edge = |from: &str, to: &str, label: Option<&str>| Edge {
        from: from.into(),
        to: to.into(),
        label: label.map(str::to_string),
    };
    let edges = vec![
        edge("start", "check", None),
        edge("other", "check", None),
        edge("check", "fix", Some("false")),
        edge("check", "done", None),
    ];
    assert_eq!(flow_texts("check", &edges), ("start, other".into(), "false → fix, done".into()));
    assert_eq!(flow_texts("start", &edges), ("entry".into(), "check".into()));
    assert_eq!(flow_texts("done", &edges), ("check".into(), "output".into()));
}

#[test]
fn agent_defaults_fall_back_to_the_worker() {
    let d = agent_defaults("hub", None, "");
    assert_eq!(d, AgentDefaults {
        worker: "hub".into(),
        harness: "worker default".into(),
        model: "worker default".into(),
    });
    let d = agent_defaults("hub", Some("Aider"), "opus");
    assert_eq!((d.harness.as_str(), d.model.as_str()), ("Aider", "opus"));
}

#[test]
fn the_preview_scroll_stops_at_its_last_page() {
    // Rows of 25, 0 and 10 columns in a 10-column pane: 3 + 1 + 1 rows.
    let widths = [25, 0, 10];
    assert_eq!(clamp_preview_scroll(&widths, 10, 2, 99), 3);
    assert_eq!(clamp_preview_scroll(&widths, 10, 2, 1), 1);
    assert_eq!(clamp_preview_scroll(&widths, 10, 9, 4), 0, "everything fits");
    assert_eq!(clamp_preview_scroll(&widths, 0, 0, 99), 25 + 1 + 10);
}

#[test]
fn redacting_twice_changes_nothing() {
    let config = obj(vec![
        ("token", s("t-1")),
        ("nested", Json::Array(vec![obj(vec![("password", s("p")), ("n", Json::Null)])])),
    ]);
    let once = redact(&config);
    assert_eq!(redact(&once), once);
}

#[test]
fn labelled_values_show_text_none_or_a_masked_structure() {
    assert!(matches!(value_text(&s("hello")), ValueText::Plain(t) if t == "hello"));
    assert!(matches!(value_text(&Json::Null), ValueText::Plain(t) if t == "not configured"));
    match value_text(&obj(vec![("secret", s("x")), ("a", s("b"))])) {
        ValueText::Structured(j) => assert_eq!(j, obj(vec![("secret", s("••••")), ("a", s("b"))])),
        ValueText::Plain(_) => panic!("an object is a structure"),
    }
    assert_eq!(
        labelled_rows("prompt", "one\ntwo"),
        vec!["prompt  ".to_string(), "  one".to_string(), "  two".to_string()]
    );
    assert_eq!(labelled_rows("empty", ""), vec!["empty  ".to_string()]);
}

#[test]
fn source_gets_a_badge_or_a_notice() {
    assert_eq!(language_badge("python"), " python ");
    assert_eq!(missing_source_notice(""), Some("No source configured."));
    assert_eq!(missing_source_notice("x = 1"), None);
}

#[test]
fn metadata_reads_as_one_dotted_line() {
    assert_eq!(metadata_text(&vec![]), None);
    assert_eq!(
        metadata_text(&vec![
            ("harness".to_string(), "codex".to_string()),
            ("timeout".to_string(), "30".to_string()),
        ]),
        Some("harness: codex  ·  timeout: 30".to_string())
    );
    assert_eq!(scalar_text(&s("opus")), Some("opus".to_string()));
    assert_eq!(scalar_text(&Json::Null), None);
}
