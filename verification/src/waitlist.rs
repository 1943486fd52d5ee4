//! The decisions of the waitlist screen shown before the hosted runtime starts.
//!
//! The screen polls the backend and forwards keys; what a key does to the
//! screen, which request it asks for, and what a reply says are decided here,
//! one step at a time, while the caller performs the requests.

use vstd::prelude::*;

use crate::text::{concat, string_pop, string_push, to_string, trimmed, trimmed_is_empty};

verus! {

/// How the startup loop should continue after the waitlist screen exits.
#[derive(Debug, Clone, Copy, PartialEq, Eq, Structural)]
pub enum WaitlistOutcome {
    /// Server-side access was granted.
    Approved,
    /// The user asked to upload their coding-agent history instead.
    PowerUser,
    /// The user quit without access.
    Quit,
}

/// A key as the waitlist reads it.
#[derive(Debug, Clone, Copy, PartialEq, Eq, Structural)]
pub enum WaitlistKeyCode {
    /// A character.
    Char(char),
    /// Enter.
    Enter,
    /// Escape.
    Esc,
    /// Backspace.
    Backspace,
    /// Any other key.
    Other,
}

/// A key press: the key and whether Control was held.
#[derive(Debug, Clone, Copy, PartialEq, Eq, Structural)]
pub struct WaitlistKey {
    /// The key.
    pub code: WaitlistKeyCode,
    /// Whether Control was held.
    pub ctrl: bool,
}

/// A backend request the waitlist screen asks its caller to make.
#[derive(Debug, Clone, PartialEq, Eq)]
pub enum WaitlistRequest {
    /// Redeem this invite code.
    RedeemInvite(String),
    /// Fetch the waitlist status now.
    Refresh,
    /// Open the repository, then start linking a GitHub account.
    LinkGithub,
    /// Check that the linked account starred the repository.
    VerifyStar,
    /// The periodic status poll.
    Poll,
}

/// What the caller does after a key.
#[derive(Debug, Clone, PartialEq, Eq)]
pub enum WaitlistStep {
    /// Nothing; redraw and wait.
    Stay,
    /// Leave the waitlist with this outcome.
    Finish(WaitlistOutcome),
    /// Make this request and hand its reply to [`WaitlistScreen::on_reply`].
    Request(WaitlistRequest),
}

/// The screen's own state, beside the last status the backend reported.
#[derive(Debug)]
pub struct WaitlistScreen {
    /// The invite code being typed.
    pub invite: String,
    /// Whether keys go to the invite field.
    pub entering_invite: bool,
    /// The last notice.
    pub message: Option<String>,
}

/// The mathematical value of the screen's state.
pub struct WaitlistView {
    /// See [`WaitlistScreen::invite`].
    pub invite: Seq<char>,
    /// See [`WaitlistScreen::entering_invite`].
    pub entering_invite: bool,
    /// See [`WaitlistScreen::message`].
    pub message: Option<Seq<char>>,
}

impl View for WaitlistScreen {
    type V = WaitlistView;

    open spec fn view(&self) -> WaitlistView {
        WaitlistView {
            invite: self.invite@,
            entering_invite: self.entering_invite,
            message: match self.message {
                Some(m) => Some(m@),
                None => None,
            },
        }
    }
}

/// The mathematical value of a request.
pub enum RequestView {
    /// See [`WaitlistRequest::RedeemInvite`].
    RedeemInvite(Seq<char>),
    /// See [`WaitlistRequest::Refresh`].
    Refresh,
    /// See [`WaitlistRequest::LinkGithub`].
    LinkGithub,
    /// See [`WaitlistRequest::VerifyStar`].
    VerifyStar,
    /// See [`WaitlistRequest::Poll`].
    Poll,
}

impl View for WaitlistRequest {
    type V = RequestView;

    open spec fn view(&self) -> RequestView {
        match self {
            WaitlistRequest::RedeemInvite(code) => RequestView::RedeemInvite(code@),
            WaitlistRequest::Refresh => RequestView::Refresh,
            WaitlistRequest::LinkGithub => RequestView::LinkGithub,
            WaitlistRequest::VerifyStar => RequestView::VerifyStar,
            WaitlistRequest::Poll => RequestView::Poll,
        }
    }
}

/// The mathematical value of a step.
pub enum StepView {
    /// See [`WaitlistStep::Stay`].
    Stay,
    /// See [`WaitlistStep::Finish`].
    Finish(WaitlistOutcome),
    /// See [`WaitlistStep::Request`].
    Request(RequestView),
}

impl View for WaitlistStep {
    type V = StepView;

    open spec fn view(&self) -> StepView {
        match self {
            WaitlistStep::Stay => StepView::Stay,
            WaitlistStep::Finish(o) => StepView::Finish(*o),
            WaitlistStep::Request(r) => StepView::Request(r@),
        }
    }
}

/// Whether the backend's status lets the operator in: access was granted, or
/// the waitlist entry is approved.
pub open spec fn spec_admits(has_access: bool, approved: bool) -> bool {
    has_access || approved
}

/// Whether this status lets the operator in.
pub fn waitlist_admits(has_access: bool, approved: bool) -> (r: bool)
    ensures
        r == spec_admits(has_access, approved),
{
    has_access || approved
}

/// What one key does: in the invite field, Esc leaves it empty, Backspace
/// and characters edit it, and Enter on a non-blank code redeems it and closes
/// the field; elsewhere `q` (with or without Control) and Ctrl-C quit, as the
/// screen's help line promises, `i` opens the field, `p`
/// leaves for the history upload, and `r`, `g`, `v` make their requests.
pub open spec fn spec_waitlist_key(v: WaitlistView, key: WaitlistKey) -> (WaitlistView, StepView) {
    if v.entering_invite {
        match key.code {
            WaitlistKeyCode::Esc => (
                WaitlistView { entering_invite: false, invite: Seq::empty(), ..v },
                StepView::Stay,
            ),
            WaitlistKeyCode::Backspace => (
                WaitlistView {
                    invite: if v.invite.len() > 0 {
                        v.invite.drop_last()
                    } else {
                        v.invite
                    },
                    ..v
                },
                StepView::Stay,
            ),
            WaitlistKeyCode::Char(c) => (WaitlistView { invite: v.invite.push(c), ..v }, StepView::Stay),
            WaitlistKeyCode::Enter => if trimmed(v.invite).len() > 0 {
                (
                    WaitlistView { entering_invite: false, invite: Seq::empty(), ..v },
                    StepView::Request(RequestView::RedeemInvite(v.invite)),
                )
            } else {
                (v, StepView::Stay)
            },
            WaitlistKeyCode::Other => (v, StepView::Stay),
        }
    } else {
        match key.code {
            WaitlistKeyCode::Char(c) => if c == 'q' || (key.ctrl && c == 'c') {
                (v, StepView::Finish(WaitlistOutcome::Quit))
            } else if c == 'i' {
                (WaitlistView { entering_invite: true, ..v }, StepView::Stay)
            } else if c == 'p' {
                (v, StepView::Finish(WaitlistOutcome::PowerUser))
            } else if c == 'r' {
                (v, StepView::Request(RequestView::Refresh))
            } else if c == 'g' {
                (v, StepView::Request(RequestView::LinkGithub))
            } else if c == 'v' {
                (v, StepView::Request(RequestView::VerifyStar))
            } else {
                (v, StepView::Stay)
            },
            _ => (v, StepView::Stay),
        }
    }
}

/// The notice a successful request leaves, if any.
pub open spec fn success_notice(request: RequestView) -> Option<Seq<char>> {
    match request {
        RequestView::RedeemInvite(_) => Some("invite accepted"@),
        RequestView::Refresh => Some("position refreshed"@),
        RequestView::LinkGithub => Some("star the repo, finish GitHub linking, then press v"@),
        RequestView::VerifyStar => Some("GitHub star verified"@),
        RequestView::Poll => None,
    }
}

/// What a request's reply does to the notice: a success leaves its notice (the
/// poll leaves none), and a failure shows its error, a failed poll marked as
/// a failed refresh.
pub open spec fn spec_waitlist_reply(
    v: WaitlistView,
    request: RequestView,
    reply: Result<(), Seq<char>>,
) -> WaitlistView {
    match reply {
        Ok(()) => match success_notice(request) {
            Some(m) => WaitlistView { message: Some(m), ..v },
            None => v,
        },
        Err(e) => WaitlistView {
            message: Some(
                if request is Poll {
                    "refresh failed: "@ + e
                } else {
                    e
                },
            ),
            ..v
        },
    }
}

impl WaitlistScreen {
    /// A screen with an empty, closed invite field and no notice.
    pub fn new() -> (r: Self)
        ensures
            r@ == (WaitlistView { invite: Seq::empty(), entering_invite: false, message: None }),
    {
        WaitlistScreen { invite: String::new(), entering_invite: false, message: None }
    }

    /// Handle one key.
    pub fn handle_key(&mut self, key: WaitlistKey) -> (r: WaitlistStep)
        ensures
            (final(self)@, r@) == spec_waitlist_key(old(self)@, key),
    {
        if self.entering_invite {
            match key.code {
                WaitlistKeyCode::Esc => {
                    self.entering_invite = false;
                    self.invite = String::new();
                    WaitlistStep::Stay
                },
                WaitlistKeyCode::Backspace => {
                    let _ = string_pop(&mut self.invite);
                    WaitlistStep::Stay
                },
                WaitlistKeyCode::Char(c) => {
                    string_push(&mut self.invite, c);
                    WaitlistStep::Stay
                },
                WaitlistKeyCode::Enter => {
                    if trimmed_is_empty(self.invite.as_str()) {
                        WaitlistStep::Stay
                    } else {
                        let code = to_string(self.invite.as_str());
                        self.entering_invite = false;
                        self.invite = String::new();
                        WaitlistStep::Request(WaitlistRequest::RedeemInvite(code))
                    }
                },
                WaitlistKeyCode::Other => WaitlistStep::Stay,
            }
        } else {
            match key.code {
                WaitlistKeyCode::Char(c) => {
                    if c == 'q' || (key.ctrl && c == 'c') {
                        WaitlistStep::Finish(WaitlistOutcome::Quit)
                    } else if c == 'i' {
                        self.entering_invite = true;
                        WaitlistStep::Stay
                    } else if c == 'p' {
                        WaitlistStep::Finish(WaitlistOutcome::PowerUser)
                    } else if c == 'r' {
                        WaitlistStep::Request(WaitlistRequest::Refresh)
                    } else if c == 'g' {
                        WaitlistStep::Request(WaitlistRequest::LinkGithub)
                    } else if c == 'v' {
                        WaitlistStep::Request(WaitlistRequest::VerifyStar)
                    } else {
                        WaitlistStep::Stay
                    }
                },
                _ => WaitlistStep::Stay,
            }
        }
    }

    /// Take a request's reply: `Ok` when it succeeded, or its error's text.
    pub fn on_reply(&mut self, request: &WaitlistRequest, reply: Result<(), String>)
        ensures
            final(self)@ == spec_waitlist_reply(
                old(self)@,
                request@,
                match reply {
                    Ok(()) => Ok(()),
                    Err(e) => Err(e@),
                },
            ),
    {
        match reply {
            Ok(()) => {
                let notice = match request {
                    WaitlistRequest::RedeemInvite(_) => Some(to_string("invite accepted")),
                    WaitlistRequest::Refresh => Some(to_string("position refreshed")),
                    WaitlistRequest::LinkGithub => Some(
                        to_string("star the repo, finish GitHub linking, then press v"),
                    ),
                    WaitlistRequest::VerifyStar => Some(to_string("GitHub star verified")),
                    WaitlistRequest::Poll => None,
                };
                if notice.is_some() {
                    self.message = notice;
                }
            },
            Err(e) => {
                let text = match request {
                    WaitlistRequest::Poll => concat("refresh failed: ", e.as_str()),
                    _ => e,
                };
                self.message = Some(text);
            },
        }
    }
}

} // verus!
