//! The waitlist screen's key handling and reply notices.

use medulla_tui::waitlist::{
    waitlist_admits, WaitlistKey, WaitlistKeyCode, WaitlistOutcome, WaitlistRequest,
    WaitlistScreen, WaitlistStep,
};

fn key(code: WaitlistKeyCode) -> WaitlistKey {
    WaitlistKey { code, ctrl: false }
}

fn ch(c: char) -> WaitlistKey {
    key(WaitlistKeyCode::Char(c))
}

#[test]
fn access_or_approval_lets_the_operator_in() {
    assert!(waitlist_admits(true, false));
    assert!(waitlist_admits(false, true));
    assert!(!waitlist_admits(false, false));
}

#[test]
fn an_invite_is_typed_edited_and_redeemed() {
    let mut s = WaitlistScreen::new();
    assert_eq!(s.handle_key(ch('i')), WaitlistStep::Stay);
    assert!(s.entering_invite);
    for c in "abcx".chars() {
        s.handle_key(ch(c));
    }
    s.handle_key(key(WaitlistKeyCode::Backspace));
    assert_eq!(s.invite, "abc");
    assert_eq!(
        s.handle_key(key(WaitlistKeyCode::Enter)),
        WaitlistStep::Request(WaitlistRequest::RedeemInvite("abc".into()))
    );
    assert!(!s.entering_invite);
    assert_eq!(s.invite, "");
    s.on_reply(&WaitlistRequest::RedeemInvite("abc".into()), Ok(()));
    assert_eq!(s.message.as_deref(), Some("invite accepted"));
}

#[test]
fn a_blank_invite_is_not_sent_and_esc_discards_it() {
    let mut s = WaitlistScreen::new();
    s.handle_key(ch('i'));
    s.handle_key(ch(' '));
    assert_eq!(s.handle_key(key(WaitlistKeyCode::Enter)), WaitlistStep::Stay);
    assert!(s.entering_invite);
    s.handle_key(ch('q'));
    assert_eq!(s.handle_key(key(WaitlistKeyCode::Esc)), WaitlistStep::Stay);
    assert!(!s.entering_invite);
    assert_eq!(s.invite, "");
}

#[test]
fn letters_in_the_invite_field_are_text_not_commands() {
    let mut s = WaitlistScreen::new();
    s.handle_key(ch('i'));
    for c in ['p', 'r', 'g', 'v'] {
        assert_eq!(s.handle_key(ch(c)), WaitlistStep::Stay);
    }
    assert_eq!(s.invite, "prgv");
}

#[test]
fn the_menu_keys_map_to_their_actions() {
    let mut s = WaitlistScreen::new();
    assert_eq!(s.handle_key(ch('p')), WaitlistStep::Finish(WaitlistOutcome::PowerUser));
    assert_eq!(s.handle_key(ch('r')), WaitlistStep::Request(WaitlistRequest::Refresh));
    assert_eq!(s.handle_key(ch('g')), WaitlistStep::Request(WaitlistRequest::LinkGithub));
    assert_eq!(s.handle_key(ch('v')), WaitlistStep::Request(WaitlistRequest::VerifyStar));
    assert_eq!(s.handle_key(ch('c')), WaitlistStep::Stay, "a plain c is no command");
    assert_eq!(s.handle_key(ch('q')), WaitlistStep::Finish(WaitlistOutcome::Quit), "q quit");
    let ctrl_q = WaitlistKey { code: WaitlistKeyCode::Char('q'), ctrl: true };
    let ctrl_c = WaitlistKey { code: WaitlistKeyCode::Char('c'), ctrl: true };
    assert_eq!(s.handle_key(ctrl_q), WaitlistStep::Finish(WaitlistOutcome::Quit));
    assert_eq!(s.handle_key(ctrl_c), WaitlistStep::Finish(WaitlistOutcome::Quit));
}

#[test]
fn replies_leave_their_notices() {
    let mut s = WaitlistScreen::new();
    s.on_reply(&WaitlistRequest::Refresh, Ok(()));
    assert_eq!(s.message.as_deref(), Some("position refreshed"));
    s.on_reply(&WaitlistRequest::Poll, Ok(()));
    assert_eq!(s.message.as_deref(), Some("position refreshed"), "a quiet poll says nothing");
    s.on_reply(&WaitlistRequest::Poll, Err("timeout".into()));
    assert_eq!(s.message.as_deref(), Some("refresh failed: timeout"));
    s.on_reply(&WaitlistRequest::VerifyStar, Err("not starred".into()));
    assert_eq!(s.message.as_deref(), Some("not starred"));
    s.on_reply(&WaitlistRequest::LinkGithub, Ok(()));
    assert_eq!(
        s.message.as_deref(),
        Some("star the repo, finish GitHub linking, then press v")
    );
    s.on_reply(&WaitlistRequest::VerifyStar, Ok(()));
    assert_eq!(s.message.as_deref(), Some("GitHub star verified"));
}
