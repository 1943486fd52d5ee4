//! `medulla login` flag parsing.

use medulla_tui::cli::{parse_login_args, LoginArgs};
use medulla_tui::login::Provider;

fn args(list: &[&str]) -> Vec<String> {
    list.iter().map(|s| s.to_string()).collect()
}

#[test]
fn no_flags_give_the_defaults() {
    let parsed = parse_login_args(&[]).unwrap();
    assert_eq!(parsed, LoginArgs::default());
    assert_eq!(parsed.provider, Provider::Google);
    assert_eq!(parsed.config, None);
    assert!(!parsed.no_browser && !parsed.code);
}

#[test]
fn every_flag_is_read() {
    let parsed = parse_login_args(&args(&[
        "--config", "a.toml", "--provider", "github", "--token", "t-1", "--no-browser", "--code",
    ]))
    .unwrap();
    assert_eq!(parsed.config.as_deref(), Some("a.toml"));
    assert_eq!(parsed.provider, Provider::Github);
    assert_eq!(parsed.token.as_deref(), Some("t-1"));
    assert!(parsed.no_browser);
    assert!(parsed.code);
}

#[test]
fn an_unknown_provider_is_refused_naming_the_flag() {
    assert_eq!(
        parse_login_args(&args(&["--provider", "myspace"])),
        Err("--provider: unknown provider 'myspace'".to_string())
    );
    // The refusal wins even over flags read before it.
    assert_eq!(
        parse_login_args(&args(&["--code", "--provider", "Google"])),
        Err("--provider: unknown provider 'Google'".to_string())
    );
}

#[test]
fn later_flags_override_and_strays_are_skipped() {
    let parsed = parse_login_args(&args(&[
        "stray", "--provider", "twitter", "--provider", "discord", "--config",
    ]))
    .unwrap();
    assert_eq!(parsed.provider, Provider::Discord);
    assert_eq!(parsed.config, None, "a value flag at the end has no value to read");
}

#[test]
fn a_value_is_taken_even_when_it_looks_like_a_flag() {
    let parsed = parse_login_args(&args(&["--token", "--code"])).unwrap();
    assert_eq!(parsed.token.as_deref(), Some("--code"));
    assert!(!parsed.code);
}

#[test]
fn the_last_value_of_each_flag_wins() {
    let parsed = parse_login_args(&args(&[
        "--config", "a.toml", "--token", "t-1", "--provider", "github", "--config", "b.toml",
        "--token", "t-2", "--provider", "twitter",
    ]))
    .unwrap();
    assert_eq!(parsed.config.as_deref(), Some("b.toml"));
    assert_eq!(parsed.token.as_deref(), Some("t-2"));
    assert_eq!(parsed.provider, Provider::Twitter);
}
