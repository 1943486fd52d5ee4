//! The login screen: the method → provider progression, the loopback, code and
//! API-key phases, outcome transitions, inline errors, and the token echo.

use medulla_tui::login::{
    code_login_url, menu_item, provider_label, provider_row, token_display, LoginCmd, LoginEvent,
    LoginKey, LoginKeyCode, LoginOutcome, LoginScreen, MenuItem, Phase, Provider, SignInMethod,
    MENU_LEN, PROVIDERS_LEN,
};

/// Idle-menu row indices, in the screen's own menu order.
const ROW_BROWSER: usize = 0;
const ROW_CODE: usize = 1;
const ROW_PASTE_KEY: usize = 2;
const ROW_DOCS: usize = 3;
const ROW_STAR: usize = 4;
const ROW_QUIT: usize = 5;

fn key(code: LoginKeyCode) -> LoginKey {
    LoginKey { code, ctrl: false }
}

fn ctrl(c: char) -> LoginKey {
    LoginKey { code: LoginKeyCode::Char(c), ctrl: true }
}

/// Select the list row at `index` and activate it, the way a user does.
fn pick(screen: &mut LoginScreen, index: usize) -> Option<LoginCmd> {
    for _ in 0..index {
        screen.handle_key(key(LoginKeyCode::Down));
    }
    screen.handle_key(key(LoginKeyCode::Enter))
}

/// Walk the whole sign-in path: pick a method, then a provider.
fn sign_in(screen: &mut LoginScreen, method_row: usize, provider_row: usize) -> Option<LoginCmd> {
    pick(screen, method_row);
    pick(screen, provider_row)
}

fn menu_labels() -> Vec<&'static str> {
    (0..MENU_LEN).map(|i| menu_item(i).label()).collect()
}

fn provider_labels() -> Vec<&'static str> {
    (0..PROVIDERS_LEN).map(|i| provider_label(provider_row(i))).collect()
}

#[test]
fn renders_branding_and_both_sign_in_methods() {
    let s = LoginScreen::new("http://localhost:5000");
    assert_eq!(s.base_url(), "http://localhost:5000");
    assert_eq!(s.phase(), Phase::Idle);
    let menu = menu_labels();
    assert_eq!(menu[ROW_BROWSER], "Sign in with a browser");
    assert!(menu[ROW_CODE].contains("SSH"), "the code row says who it is for");
    assert_eq!(menu[ROW_PASTE_KEY], "Paste an API key");
    assert!(menu.iter().all(|l| !l.contains("offline")), "signing in is the only way in");
}

#[test]
fn renders_branding_backend_and_both_sign_in_methods() {
    let s = LoginScreen::new("http://localhost:5000");
    assert_eq!(s.base_url(), "http://localhost:5000");
    let menu = menu_labels();
    assert!(menu.contains(&"Sign in with a browser"));
    assert!(menu.iter().any(|l| l.contains("SSH")));
    assert!(menu.contains(&"Paste an API key"));
}

#[test]
fn the_provider_step_offers_every_supported_provider() {
    let mut s = LoginScreen::new("b");
    pick(&mut s, ROW_BROWSER);
    assert_eq!(s.phase(), Phase::ProviderPick);
    let labels = provider_labels();
    for label in ["Google", "GitHub", "X (Twitter)"] {
        assert!(labels.contains(&label), "{label} offered");
    }
    assert!(!labels.contains(&"Discord"), "the backend has no Discord login");
}

#[test]
fn the_provider_step_lists_every_supported_provider() {
    let mut s = LoginScreen::new("b");
    pick(&mut s, ROW_BROWSER);
    assert!(s.method().provider_prompt().contains("choose a provider"));
    assert_eq!(provider_labels(), vec!["Google", "GitHub", "X (Twitter)"]);
}

#[test]
fn the_menu_offers_no_discord_and_no_offline_escape() {
    let menu = menu_labels();
    assert!(menu.iter().all(|l| !l.contains("Discord")), "no Discord row");
    assert!(menu.iter().all(|l| !l.contains("offline")), "no offline row");
    assert!(menu.iter().all(|l| !l.contains("mock")), "no mock row");
    assert!(provider_labels().iter().all(|l| !l.contains("Discord")), "no Discord provider");
}

#[test]
fn each_provider_row_starts_loopback_with_that_provider() {
    for (row, provider) in [Provider::Google, Provider::Github, Provider::Twitter]
        .into_iter()
        .enumerate()
    {
        let mut s = LoginScreen::new("http://b");
        let cmd = sign_in(&mut s, ROW_BROWSER, row);
        assert_eq!(
            cmd,
            Some(LoginCmd::StartLoopback { base_url: "http://b".into(), provider }),
            "row {row} signs in with {provider:?}"
        );
        // The choice sticks, so a retry after a failure reuses it.
        assert_eq!(s.provider(), provider);
        assert_eq!(s.method(), SignInMethod::Browser);
    }
}

#[test]
fn selecting_a_provider_row_signs_in_with_it() {
    let mut s = LoginScreen::new("b");
    let cmd = sign_in(&mut s, ROW_BROWSER, 1);
    assert_eq!(
        cmd,
        Some(LoginCmd::StartLoopback { base_url: "b".into(), provider: Provider::Github })
    );
    assert_eq!(s.provider(), Provider::Github);
    assert_eq!(s.method(), SignInMethod::Browser);
}

#[test]
fn the_code_method_shows_a_verification_url_and_needs_no_listener() {
    let mut s = LoginScreen::new("http://b/");
    assert_eq!(sign_in(&mut s, ROW_CODE, 1), None);
    assert_eq!(s.method(), SignInMethod::Code);
    assert_eq!(s.provider(), Provider::Github);
    assert_eq!(s.phase(), Phase::CodeEntry);
    assert_eq!(s.url(), Some("http://b/auth/github/login?redirect=cli"));
    assert_eq!(s.port(), None, "nothing is bound locally");
}

#[test]
fn the_code_method_shows_a_url_for_another_device_and_binds_nothing() {
    let mut s = LoginScreen::new("http://backend");
    assert_eq!(sign_in(&mut s, ROW_CODE, 0), None);
    assert_eq!(s.method(), SignInMethod::Code);
    assert_eq!(s.url(), Some("http://backend/auth/google/login?redirect=cli"));
    assert_eq!(s.port(), None);
}

#[test]
fn a_code_is_typed_or_pasted_and_submitted_for_redemption() {
    let mut s = LoginScreen::new("b");
    sign_in(&mut s, ROW_CODE, 0);

    // Empty submit is refused with an error, no command.
    assert!(s.handle_key(key(LoginKeyCode::Enter)).is_none());
    assert!(s.error().unwrap().contains("paste the code"));

    // A paste delivers the code in one event, trailing newline and all; it
    // must not submit itself.
    s.handle_paste(&format!("{}\n", "a".repeat(64)));
    assert!(s.input().contains("aaaa"), "code echoed");
    assert_eq!(s.phase(), Phase::CodeEntry);
    assert_eq!(
        s.handle_key(key(LoginKeyCode::Enter)),
        Some(LoginCmd::SubmitToken("a".repeat(64))),
        "the newline is trimmed and the code goes out whole"
    );
}

#[test]
fn a_pasted_code_is_submitted_for_redemption() {
    let mut s = LoginScreen::new("b");
    sign_in(&mut s, ROW_CODE, 0);
    s.handle_paste(&format!("{}\n", "d".repeat(64)));
    assert_eq!(
        s.handle_key(key(LoginKeyCode::Enter)),
        Some(LoginCmd::SubmitToken("d".repeat(64)))
    );
    assert_eq!(s.phase(), Phase::Verifying);
}

#[test]
fn ctrl_o_offers_to_open_the_verification_url_without_eating_typed_characters() {
    let mut s = LoginScreen::new("http://b");
    sign_in(&mut s, ROW_CODE, 0);

    // A plain 'o' belongs to the code being entered, so the escape hatch has
    // to be a chord.
    assert!(s.handle_key(key(LoginKeyCode::Char('o'))).is_none());
    let cmd = s.handle_key(ctrl('o'));
    assert_eq!(cmd, Some(LoginCmd::OpenUrl("http://b/auth/google/login?redirect=cli".into())));
    // The typed 'o' is still in the field.
    assert_eq!(
        s.handle_key(key(LoginKeyCode::Enter)),
        Some(LoginCmd::SubmitToken("o".into()))
    );
}

#[test]
fn a_rejected_code_returns_to_the_code_screen_with_the_url_still_up() {
    let mut s = LoginScreen::new("http://b");
    sign_in(&mut s, ROW_CODE, 0);
    s.handle_paste("expired");
    s.handle_key(key(LoginKeyCode::Enter));
    s.apply(LoginEvent::VerifyFailed("login token redemption failed".into()));

    assert_eq!(s.error(), Some("login token redemption failed"));
    // Fetching another code needs the URL, so the screen must not fall back
    // to the menu where it is no longer shown.
    assert_eq!(s.phase(), Phase::CodeEntry);
    assert!(s.url().unwrap().contains("redirect=cli"), "URL still shown");
}

#[test]
fn esc_from_the_code_screen_returns_to_the_provider_list() {
    let mut s = LoginScreen::new("b");
    sign_in(&mut s, ROW_CODE, 0);
    s.handle_key(key(LoginKeyCode::Esc));
    assert_eq!(s.phase(), Phase::ProviderPick, "provider list");
    // And Esc again is the way back to the menu.
    s.handle_key(key(LoginKeyCode::Esc));
    assert_eq!(s.phase(), Phase::Idle);
}

#[test]
fn the_menus_wrap_at_both_ends() {
    let mut s = LoginScreen::new("b");
    s.handle_key(key(LoginKeyCode::Up)); // wrap up from the first row to the last
    assert!(s.handle_key(key(LoginKeyCode::Enter)).is_none());
    assert_eq!(s.outcome(), Some(LoginOutcome::Quit));

    let mut p = LoginScreen::new("b");
    pick(&mut p, ROW_BROWSER);
    p.handle_key(key(LoginKeyCode::Up));
    assert!(matches!(
        p.handle_key(key(LoginKeyCode::Enter)),
        Some(LoginCmd::StartLoopback { .. })
    ));
    assert_eq!(p.provider(), Provider::Twitter, "wrapped to the last row");
}

#[test]
fn letters_no_longer_fire_actions() {
    for c in ['o', 't', 'm', 'q', 'p'] {
        let mut s = LoginScreen::new("b");
        assert!(
            s.handle_key(key(LoginKeyCode::Char(c))).is_none(),
            "{c} must not emit a command"
        );
        assert_eq!(s.outcome(), None, "{c} must not settle an outcome");
    }
}

#[test]
fn esc_while_waiting_cancels_loopback() {
    let mut s = LoginScreen::new("b");
    sign_in(&mut s, ROW_BROWSER, 0);
    s.apply(LoginEvent::LoopbackStarted { url: "http://b/auth/google/login".into(), port: 40404 });
    assert_eq!(s.phase(), Phase::Waiting, "waiting for browser callback");
    assert_eq!(s.port(), Some(40404));
    assert_eq!(s.url(), Some("http://b/auth/google/login"));
    let cmd = s.handle_key(key(LoginKeyCode::Esc));
    assert_eq!(cmd, Some(LoginCmd::CancelLoopback));
}

#[test]
fn enter_starts_loopback_and_waiting_shows_url_and_port() {
    let mut s = LoginScreen::new("http://backend");
    let cmd = sign_in(&mut s, ROW_BROWSER, 0);
    assert_eq!(
        cmd,
        Some(LoginCmd::StartLoopback {
            base_url: "http://backend".into(),
            provider: Provider::Google,
        })
    );
    assert_eq!(s.phase(), Phase::Starting);
    s.apply(LoginEvent::LoopbackStarted {
        url: "http://backend/auth/google/login?redirectUri=x".into(),
        port: 51234,
    });
    assert_eq!(s.phase(), Phase::Waiting);
    assert_eq!(s.port(), Some(51234));
    assert!(s.url().unwrap().contains("/auth/google/login"));
}

#[test]
fn esc_cancels_waiting() {
    let mut s = LoginScreen::new("b");
    sign_in(&mut s, ROW_BROWSER, 0);
    s.apply(LoginEvent::LoopbackStarted { url: "u".into(), port: 1 });
    assert_eq!(s.handle_key(key(LoginKeyCode::Esc)), Some(LoginCmd::CancelLoopback));
    // Back to the provider list, so another provider is one key away.
    assert_eq!(s.phase(), Phase::ProviderPick);
    assert_eq!(s.url(), None);
    assert_eq!(s.port(), None);
}

#[test]
fn token_entry_edits_and_submits() {
    let mut s = LoginScreen::new("b");
    assert!(pick(&mut s, ROW_PASTE_KEY).is_none(), "the API-key row opens the input");
    assert_eq!(s.phase(), Phase::TokenEntry);
    for c in "abc".chars() {
        s.handle_key(key(LoginKeyCode::Char(c)));
    }
    s.handle_key(key(LoginKeyCode::Backspace));
    assert_eq!(s.input(), "ab", "input echoed");
    let cmd = s.handle_key(key(LoginKeyCode::Enter));
    assert_eq!(cmd, Some(LoginCmd::SubmitToken("ab".into())));
    // Empty submit is refused with an error, no command.
    let mut s2 = LoginScreen::new("b");
    pick(&mut s2, ROW_PASTE_KEY);
    assert!(s2.handle_key(key(LoginKeyCode::Enter)).is_none());
    assert!(s2.error().unwrap().contains("enter a token"));
}

#[test]
fn token_input_mode_edits_and_submits() {
    let mut s = LoginScreen::new("b");
    assert!(pick(&mut s, ROW_PASTE_KEY).is_none(), "the API-key row opens the input");
    assert_eq!(s.phase(), Phase::TokenEntry, "input prompt shown");
    for c in "jwt.token".chars() {
        s.handle_key(key(LoginKeyCode::Char(c)));
    }
    s.handle_key(key(LoginKeyCode::Backspace));
    assert_eq!(s.input(), "jwt.toke", "input echoed");
    let cmd = s.handle_key(key(LoginKeyCode::Enter));
    assert_eq!(cmd, Some(LoginCmd::SubmitToken("jwt.toke".into())));
}

#[test]
fn token_input_esc_returns_to_menu() {
    let mut s = LoginScreen::new("b");
    pick(&mut s, ROW_PASTE_KEY);
    s.handle_key(key(LoginKeyCode::Char('x')));
    assert!(s.handle_key(key(LoginKeyCode::Esc)).is_none());
    assert_eq!(s.phase(), Phase::Idle);
    assert_eq!(s.input(), "");
}

#[test]
fn a_pasted_token_lands_in_the_input_and_waits_for_enter() {
    let mut s = LoginScreen::new("b");
    pick(&mut s, ROW_PASTE_KEY);
    s.handle_paste("sk-test-key\n");
    assert_eq!(s.phase(), Phase::TokenEntry, "a paste does not submit itself");
    assert!(s.handle_key(key(LoginKeyCode::Enter)).is_some());

    let mut again = LoginScreen::new("b");
    pick(&mut again, ROW_PASTE_KEY);
    again.handle_key(key(LoginKeyCode::Char('s')));
    again.handle_paste("k-rest\r\n");
    assert_eq!(
        again.handle_key(key(LoginKeyCode::Enter)),
        Some(LoginCmd::SubmitToken("sk-rest".into())),
        "the paste appends to what was typed and the newline is trimmed off"
    );
}

#[test]
fn a_paste_outside_an_input_phase_is_ignored() {
    let mut s = LoginScreen::new("b");
    s.handle_paste("stray");
    assert_eq!(s.input(), "");
    // Still on the menu: opening token entry now shows an empty field.
    pick(&mut s, ROW_PASTE_KEY);
    assert!(s.handle_key(key(LoginKeyCode::Enter)).is_none());
    assert!(s.error().unwrap().contains("enter a token"));
}

#[test]
fn the_quit_row_and_ctrl_c_yield_quit() {
    let mut q = LoginScreen::new("b");
    pick(&mut q, ROW_QUIT);
    assert_eq!(q.outcome(), Some(LoginOutcome::Quit));

    let mut c = LoginScreen::new("b");
    c.handle_key(ctrl('c'));
    assert_eq!(c.outcome(), Some(LoginOutcome::Quit));
}

#[test]
fn the_quit_row_and_ctrl_c_yield_quit_outcome() {
    let mut s = LoginScreen::new("b");
    pick(&mut s, ROW_QUIT);
    assert_eq!(s.outcome(), Some(LoginOutcome::Quit));

    // Ctrl-C quits from every phase, an input phase included.
    let mut c = LoginScreen::new("b");
    pick(&mut c, ROW_PASTE_KEY);
    c.handle_key(ctrl('c'));
    assert_eq!(c.outcome(), Some(LoginOutcome::Quit));
}

#[test]
fn verified_sets_token_outcome_and_flashes() {
    let mut s = LoginScreen::new("b");
    s.apply(LoginEvent::CallbackToken("jwt".into()));
    assert_eq!(s.phase(), Phase::Verifying);
    assert!(s.flash().unwrap().contains("verifying"));
    s.apply(LoginEvent::Verified { jwt: "jwt-1".into(), who: "Logged in as a@b.c".into() });
    assert_eq!(s.outcome(), Some(LoginOutcome::Token("jwt-1".into())));
    assert_eq!(s.flash(), Some("Logged in as a@b.c"));
}

#[test]
fn apply_callback_token_shows_verifying() {
    let mut s = LoginScreen::new("b");
    s.apply(LoginEvent::CallbackToken("jwt".into()));
    assert!(s.flash().unwrap().contains("verifying"));
    assert!(s.outcome().is_none(), "not resolved until verified");
}

#[test]
fn apply_verified_sets_token_outcome() {
    let mut s = LoginScreen::new("b");
    s.apply(LoginEvent::Verified {
        jwt: "the-jwt".into(),
        who: "Logged in as dev@example.com (u1)".into(),
    });
    assert_eq!(s.outcome(), Some(LoginOutcome::Token("the-jwt".into())));
    assert!(s.flash().unwrap().contains("Logged in as dev@example.com"));
}

#[test]
fn errors_render_inline_and_keep_screen_usable() {
    let mut s = LoginScreen::new("b");
    s.apply(LoginEvent::VerifyFailed("bad token".into()));
    assert_eq!(s.error(), Some("bad token"));
    // Still usable: a failure with no input phase behind it lands on the
    // menu, which can start over.
    assert_eq!(s.phase(), Phase::Idle);
    assert!(s.handle_key(key(LoginKeyCode::Enter)).is_none());
    assert_eq!(s.phase(), Phase::ProviderPick, "choose a provider");

    let mut s2 = LoginScreen::new("b");
    s2.apply(LoginEvent::CallbackError("state mismatch timeout".into()));
    assert_eq!(s2.error(), Some("state mismatch timeout"));
}

#[test]
fn apply_callback_error_and_verify_failed_render_inline() {
    let mut s = LoginScreen::new("b");
    s.apply(LoginEvent::CallbackError("state mismatch timeout".into()));
    assert_eq!(s.error(), Some("state mismatch timeout"));
    assert!(s.handle_key(key(LoginKeyCode::Enter)).is_none());
    assert_eq!(s.phase(), Phase::ProviderPick);
    assert_eq!(s.error(), None, "choosing a method clears the error");

    let mut s2 = LoginScreen::new("b");
    s2.apply(LoginEvent::VerifyFailed("verification failed: nope".into()));
    assert_eq!(s2.error(), Some("verification failed: nope"));
}

#[test]
fn tick_advances_spinner_without_panic() {
    let mut s = LoginScreen::new("b");
    sign_in(&mut s, ROW_BROWSER, 0);
    s.apply(LoginEvent::LoopbackStarted { url: "u".into(), port: 1 });
    for _ in 0..25 {
        s.tick();
    }
    assert_eq!(s.frame(), 25);
    assert_eq!(s.phase(), Phase::Waiting);
}

#[test]
fn the_docs_and_github_rows_open_links_without_disturbing_the_menu() {
    for (index, expected) in [
        (ROW_DOCS, "https://tinyhumans.gitbook.io/medulla"),
        (ROW_STAR, "https://github.com/tinyhumansai/medulla"),
    ] {
        let mut s = LoginScreen::new("b");
        let cmd = pick(&mut s, index);
        assert_eq!(cmd, Some(LoginCmd::OpenUrl(expected.into())), "row {index}");
        assert_eq!(s.outcome(), None, "opening a link must not end the screen");
        assert_eq!(s.phase(), Phase::Idle, "menu intact");
        assert_eq!(s.menu_index(), index);
    }
}

#[test]
fn the_menu_lists_the_docs_and_github_rows() {
    assert_eq!(menu_item(ROW_DOCS), MenuItem::Docs);
    assert_eq!(menu_item(ROW_STAR), MenuItem::Star);
    let menu = menu_labels();
    assert!(menu.contains(&"Read the docs"), "docs row");
    assert!(menu.contains(&"Star us on GitHub"), "github row");
}

#[test]
fn token_display_truncates() {
    assert_eq!(token_display("", 4), "");
    assert_eq!(token_display("abc", 4), "abc");
    assert_eq!(token_display("abcdef", 4), "abc…");
}

#[test]
fn token_display_counts_characters_not_bytes() {
    assert_eq!(token_display("ééé", 3), "ééé");
    assert_eq!(token_display("éééé", 3), "éé…");
}

#[test]
fn the_code_url_drops_trailing_slashes_from_the_base() {
    assert_eq!(code_login_url("http://b///", Provider::Twitter), "http://b/auth/twitter/login?redirect=cli");
    assert_eq!(code_login_url("", Provider::Discord), "/auth/discord/login?redirect=cli");
}

#[test]
fn the_verifying_phase_ignores_keys() {
    let mut s = LoginScreen::new("b");
    pick(&mut s, ROW_PASTE_KEY);
    s.handle_paste("k");
    s.handle_key(key(LoginKeyCode::Enter));
    assert_eq!(s.phase(), Phase::Verifying);
    for code in [LoginKeyCode::Esc, LoginKeyCode::Enter, LoginKeyCode::Char('x'), LoginKeyCode::Up] {
        assert_eq!(s.handle_key(key(code)), None);
        assert_eq!(s.phase(), Phase::Verifying);
    }
}

#[test]
fn a_rejected_key_returns_to_key_entry() {
    let mut s = LoginScreen::new("b");
    pick(&mut s, ROW_PASTE_KEY);
    s.handle_paste("bad");
    s.handle_key(key(LoginKeyCode::Enter));
    s.apply(LoginEvent::VerifyFailed("nope".into()));
    assert_eq!(s.phase(), Phase::TokenEntry);
    assert_eq!(s.input(), "", "the submitted key is not left in the field");
    assert_eq!(s.error(), Some("nope"));
}

#[test]
fn menu_rows_providers_and_prompts_read_as_labelled() {
    assert_eq!(MenuItem::Method(SignInMethod::Browser).label(), "Sign in with a browser");
    assert_eq!(
        MenuItem::Method(SignInMethod::Code).label(),
        "Sign in with a code (SSH / no browser)"
    );
    assert_eq!(MenuItem::PasteKey.label(), "Paste an API key");
    assert_eq!(MenuItem::Docs.label(), "Read the docs");
    assert_eq!(MenuItem::Star.label(), "Star us on GitHub");
    assert_eq!(MenuItem::Quit.label(), "Quit");
    assert_eq!(provider_label(Provider::Google), "Google");
    assert_eq!(provider_label(Provider::Github), "GitHub");
    assert_eq!(provider_label(Provider::Twitter), "X (Twitter)");
    assert_eq!(provider_label(Provider::Discord), "Discord");
    assert_eq!(
        SignInMethod::Browser.provider_prompt(),
        "Sign in with a browser — choose a provider"
    );
    assert_eq!(SignInMethod::Code.provider_prompt(), "Sign in with a code — choose a provider");
}
