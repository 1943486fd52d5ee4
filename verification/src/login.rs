//! The pre-app login screen as a pure state machine.
//!
//! Keys become [`LoginCmd`]s for the caller to run, and [`LoginEvent`]s from
//! those async tasks are folded back into the screen. The operator chooses a
//! sign-in method first — a browser on this machine, or a code that works from
//! anywhere — then a provider; or pastes an API key; or leaves. Nothing here
//! is bound to a letter: arrows move, Enter picks.

use vstd::prelude::*;

use crate::text::{chars_of, concat, string_pop, string_push, to_string, trimmed, trimmed_chars};

verus! {

/// A sign-in provider of the backend.
#[derive(Debug, Clone, Copy, PartialEq, Eq, Structural)]
pub enum Provider {
    /// Google.
    Google,
    /// GitHub.
    Github,
    /// X (Twitter).
    Twitter,
    /// Discord, which the backend has no login for.
    Discord,
}

impl Provider {
    /// The provider a fresh screen starts with.
    pub fn default_provider() -> (r: Provider)
        ensures
            r == Provider::Google,
    {
        Provider::Google
    }

    /// The provider's name on the wire.
    pub open spec fn spec_wire(self) -> Seq<char> {
        match self {
            Provider::Google => seq!['g', 'o', 'o', 'g', 'l', 'e'],
            Provider::Github => seq!['g', 'i', 't', 'h', 'u', 'b'],
            Provider::Twitter => seq!['t', 'w', 'i', 't', 't', 'e', 'r'],
            Provider::Discord => seq!['d', 'i', 's', 'c', 'o', 'r', 'd'],
        }
    }

    /// The provider a wire name names: exactly one of the four wire names.
    pub open spec fn spec_parse(name: Seq<char>) -> Option<Provider> {
        if name == Provider::Google.spec_wire() {
            Some(Provider::Google)
        } else if name == Provider::Github.spec_wire() {
            Some(Provider::Github)
        } else if name == Provider::Twitter.spec_wire() {
            Some(Provider::Twitter)
        } else if name == Provider::Discord.spec_wire() {
            Some(Provider::Discord)
        } else {
            None
        }
    }

    /// The provider named by `name` on the wire, if any.
    pub fn parse(name: &str) -> (r: Option<Provider>)
        ensures
            r == Provider::spec_parse(name@),
    {
        if crate::text::str_eq(name, Provider::Google.wire()) {
            Some(Provider::Google)
        } else if crate::text::str_eq(name, Provider::Github.wire()) {
            Some(Provider::Github)
        } else if crate::text::str_eq(name, Provider::Twitter.wire()) {
            Some(Provider::Twitter)
        } else if crate::text::str_eq(name, Provider::Discord.wire()) {
            Some(Provider::Discord)
        } else {
            None
        }
    }

    /// The provider's name on the wire.
    pub fn wire(self) -> (r: &'static str)
        ensures
            r@ == self.spec_wire(),
    {
        let r = match self {
            Provider::Google => "google",
            Provider::Github => "github",
            Provider::Twitter => "twitter",
            Provider::Discord => "discord",
        };
        proof {
            reveal_strlit("google");
            reveal_strlit("github");
            reveal_strlit("twitter");
            reveal_strlit("discord");
        }
        r
    }
}

/// The terminal outcome of the login screen.
#[derive(Debug, Clone, PartialEq, Eq)]
pub enum LoginOutcome {
    /// A verified JWT: sign in and proceed into the app.
    Token(String),
    /// Quit cleanly without starting the app.
    Quit,
}

/// An async action the caller must run on the screen's behalf.
#[derive(Debug, Clone, PartialEq, Eq)]
pub enum LoginCmd {
    /// Bind the loopback listener, open the browser, and await the callback.
    StartLoopback { base_url: String, provider: Provider },
    /// Abort a running loopback task.
    CancelLoopback,
    /// Redeem or verify a pasted API key, JWT, or one-time code.
    SubmitToken(String),
    /// Open a URL in the platform browser; the screen stays put.
    OpenUrl(String),
}

/// An event fed back from a spawned async task into [`LoginScreen::apply`].
#[derive(Debug, Clone)]
pub enum LoginEvent {
    /// The loopback listener is bound; show the URL and the waiting spinner.
    LoopbackStarted { url: String, port: u16 },
    /// A JWT was captured from the loopback callback (verification pending).
    CallbackToken(String),
    /// The loopback flow failed.
    CallbackError(String),
    /// A JWT was verified; `who` already reads "Logged in as …".
    Verified { jwt: String, who: String },
    /// Verification or redemption failed.
    VerifyFailed(String),
}

/// How the browser half of a sign-in reaches this terminal.
#[derive(Debug, Clone, Copy, PartialEq, Eq, Structural)]
pub enum SignInMethod {
    /// Open the browser here and catch the callback on `127.0.0.1`.
    Browser,
    /// Open a URL on any device, then paste the one-time code back here.
    Code,
}

/// The heading above the provider list for `method`.
pub open spec fn spec_provider_prompt(method: SignInMethod) -> Seq<char> {
    match method {
        SignInMethod::Browser => "Sign in with a browser — choose a provider"@,
        SignInMethod::Code => "Sign in with a code — choose a provider"@,
    }
}

impl SignInMethod {
    /// The heading shown above the provider list once the method is chosen.
    pub fn provider_prompt(self) -> (r: &'static str)
        ensures
            r@ == spec_provider_prompt(self),
    {
        match self {
            SignInMethod::Browser => "Sign in with a browser — choose a provider",
            SignInMethod::Code => "Sign in with a code — choose a provider",
        }
    }
}

/// One row of the Idle menu.
#[derive(Debug, Clone, Copy, PartialEq, Eq, Structural)]
pub enum MenuItem {
    /// Pick a provider, then run that method's flow.
    Method(SignInMethod),
    /// Switch to the key-entry phase.
    PasteKey,
    /// Open the documentation in the browser.
    Docs,
    /// Open the GitHub repository in the browser.
    Star,
    /// Leave with [`LoginOutcome::Quit`].
    Quit,
}

/// The label of the Idle menu row `item`.
pub open spec fn spec_menu_label(item: MenuItem) -> Seq<char> {
    match item {
        MenuItem::Method(SignInMethod::Browser) => "Sign in with a browser"@,
        MenuItem::Method(SignInMethod::Code) => "Sign in with a code (SSH / no browser)"@,
        MenuItem::PasteKey => "Paste an API key"@,
        MenuItem::Docs => "Read the docs"@,
        MenuItem::Star => "Star us on GitHub"@,
        MenuItem::Quit => "Quit"@,
    }
}

impl MenuItem {
    /// The row's label.
    pub fn label(self) -> (r: &'static str)
        ensures
            r@ == spec_menu_label(self),
    {
        match self {
            MenuItem::Method(SignInMethod::Browser) => "Sign in with a browser",
            MenuItem::Method(SignInMethod::Code) => "Sign in with a code (SSH / no browser)",
            MenuItem::PasteKey => "Paste an API key",
            MenuItem::Docs => "Read the docs",
            MenuItem::Star => "Star us on GitHub",
            MenuItem::Quit => "Quit",
        }
    }
}

/// How many rows the Idle menu has.
pub const MENU_LEN: usize = 6;

/// How many providers the provider step offers.
pub const PROVIDERS_LEN: usize = 3;

/// The Idle menu row at `index`, in display order: the two sign-in methods,
/// then the fallbacks and the exit.
pub open spec fn spec_menu(index: int) -> MenuItem {
    if index == 0 {
        MenuItem::Method(SignInMethod::Browser)
    } else if index == 1 {
        MenuItem::Method(SignInMethod::Code)
    } else if index == 2 {
        MenuItem::PasteKey
    } else if index == 3 {
        MenuItem::Docs
    } else if index == 4 {
        MenuItem::Star
    } else {
        MenuItem::Quit
    }
}

/// The Idle menu row at `index`.
pub fn menu_item(index: usize) -> (r: MenuItem)
    ensures
        r == spec_menu(index as int),
{
    if index == 0 {
        MenuItem::Method(SignInMethod::Browser)
    } else if index == 1 {
        MenuItem::Method(SignInMethod::Code)
    } else if index == 2 {
        MenuItem::PasteKey
    } else if index == 3 {
        MenuItem::Docs
    } else if index == 4 {
        MenuItem::Star
    } else {
        MenuItem::Quit
    }
}

/// The provider row at `index`: Google, GitHub, then X. Discord exists on the
/// wire but has no backend login, so it is never offered.
pub open spec fn spec_provider_row(index: int) -> Provider {
    if index == 0 {
        Provider::Google
    } else if index == 1 {
        Provider::Github
    } else {
        Provider::Twitter
    }
}

/// The provider row at `index`.
pub fn provider_row(index: usize) -> (r: Provider)
    ensures
        r == spec_provider_row(index as int),
{
    if index == 0 {
        Provider::Google
    } else if index == 1 {
        Provider::Github
    } else {
        Provider::Twitter
    }
}

/// The label shown for `provider`.
pub open spec fn spec_provider_label(provider: Provider) -> Seq<char> {
    match provider {
        Provider::Google => "Google"@,
        Provider::Github => "GitHub"@,
        Provider::Twitter => "X (Twitter)"@,
        Provider::Discord => "Discord"@,
    }
}

/// The label for one provider row.
pub fn provider_label(provider: Provider) -> (r: &'static str)
    ensures
        r@ == spec_provider_label(provider),
{
    match provider {
        Provider::Google => "Google",
        Provider::Github => "GitHub",
        Provider::Twitter => "X (Twitter)",
        Provider::Discord => "Discord",
    }
}

/// Where "Read the docs" points.
pub open spec fn docs_url() -> Seq<char> {
    "https://tinyhumans.gitbook.io/medulla"@
}

/// Where "Star us on GitHub" points.
pub open spec fn repo_url() -> Seq<char> {
    "https://github.com/tinyhumansai/medulla"@
}

/// Where the screen is in the flow.
#[derive(Debug, Clone, Copy, PartialEq, Eq, Structural)]
pub enum Phase {
    /// The sign-in-method / action menu.
    Idle,
    /// The provider list for the chosen method.
    ProviderPick,
    /// A loopback start was issued; awaiting the listener.
    Starting,
    /// The loopback listener is live; browser round-trip in progress.
    Waiting,
    /// The verification URL is shown and the one-time code is being entered.
    CodeEntry,
    /// A single-line API-key / token input.
    TokenEntry,
    /// A captured or pasted token is being verified.
    Verifying,
}

/// A key, as far as the login screen reads one.
#[derive(Debug, Clone, Copy, PartialEq, Eq, Structural)]
pub enum LoginKeyCode {
    /// A printable character.
    Char(char),
    /// Enter.
    Enter,
    /// Escape.
    Esc,
    /// Backspace.
    Backspace,
    /// Arrow up.
    Up,
    /// Arrow down.
    Down,
    /// Anything else.
    Other,
}

/// A key press: the key and whether Control was held.
#[derive(Debug, Clone, Copy, PartialEq, Eq, Structural)]
pub struct LoginKey {
    /// The key.
    pub code: LoginKeyCode,
    /// Whether Control was held.
    pub ctrl: bool,
}

/// The login screen's state.
#[derive(Debug)]
pub struct LoginScreen {
    /// The backend the screen signs in to.
    base_url: String,
    /// The provider of the flow in progress (or last chosen).
    provider: Provider,
    /// The method chosen on the menu; kept so a retry repeats it.
    method: SignInMethod,
    /// The highlighted menu row.
    menu_index: usize,
    /// The highlighted provider row.
    provider_index: usize,
    /// Where the flow is.
    phase: Phase,
    /// Where a failed verification returns to.
    resume_phase: Phase,
    /// The URL being shown.
    url: Option<String>,
    /// The loopback port being listened on.
    port: Option<u16>,
    /// The single-line input.
    input: String,
    /// The inline error.
    error: Option<String>,
    /// The transient notice.
    flash: Option<String>,
    /// The spinner frame.
    frame: usize,
    /// The terminal outcome, once reached.
    outcome: Option<LoginOutcome>,
}

/// The mathematical value of a login outcome.
pub enum OutcomeView {
    /// See [`LoginOutcome::Token`].
    Token(Seq<char>),
    /// See [`LoginOutcome::Quit`].
    Quit,
}

/// The mathematical value of a command.
pub enum CmdView {
    /// See [`LoginCmd::StartLoopback`].
    StartLoopback(Seq<char>, Provider),
    /// See [`LoginCmd::CancelLoopback`].
    CancelLoopback,
    /// See [`LoginCmd::SubmitToken`].
    SubmitToken(Seq<char>),
    /// See [`LoginCmd::OpenUrl`].
    OpenUrl(Seq<char>),
}

/// The mathematical value of the screen.
pub struct LoginView {
    pub base_url: Seq<char>,
    pub provider: Provider,
    pub method: SignInMethod,
    pub menu_index: int,
    pub provider_index: int,
    pub phase: Phase,
    pub resume_phase: Phase,
    pub url: Option<Seq<char>>,
    pub port: Option<u16>,
    pub input: Seq<char>,
    pub error: Option<Seq<char>>,
    pub flash: Option<Seq<char>>,
    pub frame: int,
    pub outcome: Option<OutcomeView>,
}

/// The view of an optional string.
pub open spec fn opt_str_seq(s: Option<&str>) -> Option<Seq<char>> {
    match s {
        Some(t) => Some(t@),
        None => None,
    }
}

/// The view of an optional owned string.
pub open spec fn opt_seq(s: Option<String>) -> Option<Seq<char>> {
    match s {
        Some(s) => Some(s@),
        None => None,
    }
}

impl View for LoginOutcome {
    type V = OutcomeView;

    open spec fn view(&self) -> OutcomeView {
        match self {
            LoginOutcome::Token(t) => OutcomeView::Token(t@),
            LoginOutcome::Quit => OutcomeView::Quit,
        }
    }
}

impl View for LoginCmd {
    type V = CmdView;

    open spec fn view(&self) -> CmdView {
        match self {
            LoginCmd::StartLoopback { base_url, provider } => CmdView::StartLoopback(
                base_url@,
                *provider,
            ),
            LoginCmd::CancelLoopback => CmdView::CancelLoopback,
            LoginCmd::SubmitToken(t) => CmdView::SubmitToken(t@),
            LoginCmd::OpenUrl(u) => CmdView::OpenUrl(u@),
        }
    }
}

/// The view of an optional outcome.
pub open spec fn opt_outcome(o: Option<LoginOutcome>) -> Option<OutcomeView> {
    match o {
        Some(o) => Some(o@),
        None => None,
    }
}

/// The view of an optional command.
pub open spec fn opt_cmd(c: Option<LoginCmd>) -> Option<CmdView> {
    match c {
        Some(c) => Some(c@),
        None => None,
    }
}

impl View for LoginScreen {
    type V = LoginView;

    closed spec fn view(&self) -> LoginView {
        LoginView {
            base_url: self.base_url@,
            provider: self.provider,
            method: self.method,
            menu_index: self.menu_index as int,
            provider_index: self.provider_index as int,
            phase: self.phase,
            resume_phase: self.resume_phase,
            url: opt_seq(self.url),
            port: self.port,
            input: self.input@,
            error: opt_seq(self.error),
            flash: opt_seq(self.flash),
            frame: self.frame as int,
            outcome: opt_outcome(self.outcome),
        }
    }
}

/// A wrapping step through a list of `len` rows.
pub open spec fn wrap_step(index: int, len: int, down: bool) -> int {
    if down {
        (index + 1) % len
    } else {
        (index + len - 1) % len
    }
}

/// The verification URL of the code method: the backend's provider login,
/// redirecting to the CLI, with the backend's trailing slashes dropped.
pub open spec fn spec_code_login_url(base_url: Seq<char>, provider: Provider) -> Seq<char> {
    strip_trailing_slashes(base_url) + seq!['/', 'a', 'u', 't', 'h', '/'] + provider.spec_wire()
        + "/login?redirect=cli"@
}

/// `s` without its trailing `/` characters.
pub open spec fn strip_trailing_slashes(s: Seq<char>) -> Seq<char>
    decreases s.len(),
{
    if s.len() > 0 && s.last() == '/' {
        strip_trailing_slashes(s.drop_last())
    } else {
        s
    }
}

/// The verification URL for `provider` on the backend at `base_url`.
pub fn code_login_url(base_url: &str, provider: Provider) -> (r: String)
    ensures
        r@ == spec_code_login_url(base_url@, provider),
{
    let v = chars_of(base_url);
    let mut end = v.len();
    assert(v@.take(v@.len() as int) =~= v@);
    while end > 0 && v[end - 1] == '/'
        invariant
            end <= v@.len(),
            strip_trailing_slashes(v@.take(end as int)) == strip_trailing_slashes(v@),
        decreases end,
    {
        assert(v@.take(end as int).drop_last() =~= v@.take(end - 1));
        end -= 1;
    }
    let mut url = crate::text::string_from_chars(v.as_slice(), 0, end);
    assert(url@ =~= v@.take(end as int));
    string_push(&mut url, '/');
    string_push(&mut url, 'a');
    string_push(&mut url, 'u');
    string_push(&mut url, 't');
    string_push(&mut url, 'h');
    string_push(&mut url, '/');
    let url = concat(url.as_str(), provider.wire());
    let url = concat(url.as_str(), "/login?redirect=cli");
    assert(url@ =~= spec_code_login_url(base_url@, provider));
    url
}

/// How a token is echoed in at most `max` characters: whole when it fits,
/// otherwise its first `max - 1` characters and an ellipsis.
pub open spec fn spec_token_display(token: Seq<char>, max: nat) -> Seq<char> {
    if token.len() <= max {
        token
    } else {
        token.take(if max == 0 { 0 } else { max - 1 }) + seq!['…']
    }
}

/// The token echoed in at most `max` characters.
pub fn token_display(token: &str, max: usize) -> (r: String)
    ensures
        r@ == spec_token_display(token@, max as nat),
{
    let v = chars_of(token);
    if v.len() <= max {
        return to_string(token);
    }
    let keep = if max == 0 { 0 } else { max - 1 };
    let mut out = crate::text::string_from_chars(v.as_slice(), 0, keep);
    string_push(&mut out, '…');
    assert(out@ =~= spec_token_display(token@, max as nat));
    out
}

/// A bracketed paste with its line breaks flattened to spaces: a CRLF pair
/// becomes one space, as does a lone CR or LF.
pub open spec fn flatten_paste_spec(s: Seq<char>) -> Seq<char>
    decreases s.len(),
{
    if s.len() == 0 {
        s
    } else if s.len() >= 2 && s[0] == '\r' && s[1] == '\n' {
        seq![' '] + flatten_paste_spec(s.skip(2))
    } else if s[0] == '\r' || s[0] == '\n' {
        seq![' '] + flatten_paste_spec(s.drop_first())
    } else {
        seq![s[0]] + flatten_paste_spec(s.drop_first())
    }
}

/// Flatten a paste's line breaks to spaces, appending to `out`.
pub fn push_flattened(out: &mut String, text: &str)
    ensures
        final(out)@ == old(out)@ + flatten_paste_spec(text@),
{
    let v = chars_of(text);
    let mut i: usize = 0;
    assert(v@.skip(0) =~= v@);
    while i < v.len()
        invariant
            0 <= i <= v@.len(),
            v@ == text@,
            old(out)@ + flatten_paste_spec(text@) == out@ + flatten_paste_spec(v@.skip(i as int)),
        decreases v@.len() - i,
    {
        let rest = Ghost(v@.skip(i as int));
        if v[i] == '\r' && i + 1 < v.len() && v[i + 1] == '\n' {
            assert(rest@.skip(2) =~= v@.skip(i + 2));
            string_push(out, ' ');
            i += 2;
        } else if v[i] == '\r' || v[i] == '\n' {
            assert(rest@.drop_first() =~= v@.skip(i + 1));
            string_push(out, ' ');
            i += 1;
        } else {
            assert(rest@.drop_first() =~= v@.skip(i + 1));
            string_push(out, v[i]);
            i += 1;
        }
    }
    assert(v@.skip(v@.len() as int) =~= Seq::<char>::empty());
}

} // verus!

verus! {

/// The mathematical value of an event.
pub enum EventView {
    /// See [`LoginEvent::LoopbackStarted`].
    LoopbackStarted(Seq<char>, u16),
    /// See [`LoginEvent::CallbackToken`].
    CallbackToken(Seq<char>),
    /// See [`LoginEvent::CallbackError`].
    CallbackError(Seq<char>),
    /// See [`LoginEvent::Verified`].
    Verified(Seq<char>, Seq<char>),
    /// See [`LoginEvent::VerifyFailed`].
    VerifyFailed(Seq<char>),
}

impl View for LoginEvent {
    type V = EventView;

    open spec fn view(&self) -> EventView {
        match self {
            LoginEvent::LoopbackStarted { url, port } => EventView::LoopbackStarted(url@, *port),
            LoginEvent::CallbackToken(t) => EventView::CallbackToken(t@),
            LoginEvent::CallbackError(m) => EventView::CallbackError(m@),
            LoginEvent::Verified { jwt, who } => EventView::Verified(jwt@, who@),
            LoginEvent::VerifyFailed(m) => EventView::VerifyFailed(m@),
        }
    }
}

/// The notice shown once a loopback callback arrives.
pub open spec fn callback_flash() -> Seq<char> {
    "callback received — verifying…"@
}

/// What the code phase says to an empty submit.
pub open spec fn code_empty_error() -> Seq<char> {
    "paste the code from the browser first"@
}

/// What the key phase says to an empty submit.
pub open spec fn token_empty_error() -> Seq<char> {
    "enter a token first"@
}

/// The notice shown when a URL is opened.
pub open spec fn opened(url: Seq<char>) -> Seq<char> {
    "opened "@ + url
}

/// Submit the single-line input, or refuse an empty one with `empty_error`.
pub open spec fn spec_submit(v: LoginView, empty_error: Seq<char>) -> (LoginView, Option<CmdView>) {
    let token = trimmed(v.input);
    if token.len() == 0 {
        (LoginView { error: Some(empty_error), ..v }, None)
    } else {
        (
            LoginView {
                input: Seq::empty(),
                error: None,
                flash: None,
                resume_phase: v.phase,
                phase: Phase::Verifying,
                ..v
            },
            Some(CmdView::SubmitToken(token)),
        )
    }
}

/// Act on the highlighted menu row.
pub open spec fn spec_activate_menu(v: LoginView) -> (LoginView, Option<CmdView>) {
    let row = if v.menu_index < MENU_LEN - 1 {
        v.menu_index
    } else {
        MENU_LEN - 1
    };
    match spec_menu(row) {
        MenuItem::Method(m) => (
            LoginView {
                method: m,
                phase: Phase::ProviderPick,
                provider_index: 0,
                error: None,
                flash: None,
                ..v
            },
            None,
        ),
        MenuItem::PasteKey => (
            LoginView { phase: Phase::TokenEntry, input: Seq::empty(), error: None, flash: None, ..v },
            None,
        ),
        MenuItem::Docs => (
            LoginView { flash: Some(opened(docs_url())), error: None, ..v },
            Some(CmdView::OpenUrl(docs_url())),
        ),
        MenuItem::Star => (
            LoginView { flash: Some(opened(repo_url())), error: None, ..v },
            Some(CmdView::OpenUrl(repo_url())),
        ),
        MenuItem::Quit => (LoginView { outcome: Some(OutcomeView::Quit), ..v }, None),
    }
}

/// Start the chosen method's flow with the highlighted provider.
pub open spec fn spec_activate_provider(v: LoginView) -> (LoginView, Option<CmdView>) {
    let row = if v.provider_index < PROVIDERS_LEN - 1 {
        v.provider_index
    } else {
        PROVIDERS_LEN - 1
    };
    let p = spec_provider_row(row);
    match v.method {
        SignInMethod::Browser => (
            LoginView { provider: p, error: None, flash: None, phase: Phase::Starting, ..v },
            Some(CmdView::StartLoopback(v.base_url, p)),
        ),
        SignInMethod::Code => (
            LoginView {
                provider: p,
                error: None,
                flash: None,
                phase: Phase::CodeEntry,
                url: Some(spec_code_login_url(v.base_url, p)),
                input: Seq::empty(),
                ..v
            },
            None,
        ),
    }
}

/// Edit a single-line input: Backspace drops the last character, a character
/// is appended, anything else is ignored.
pub open spec fn spec_edit(v: LoginView, code: LoginKeyCode) -> LoginView {
    match code {
        LoginKeyCode::Backspace => LoginView {
            input: if v.input.len() > 0 {
                v.input.drop_last()
            } else {
                v.input
            },
            ..v
        },
        LoginKeyCode::Char(c) => LoginView { input: v.input.push(c), ..v },
        _ => v,
    }
}

/// What one key does to the screen, and the command it emits.
pub open spec fn spec_handle_key(v: LoginView, key: LoginKey) -> (LoginView, Option<CmdView>) {
    if key.ctrl && key.code == LoginKeyCode::Char('c') {
        (LoginView { outcome: Some(OutcomeView::Quit), ..v }, None)
    } else {
        match v.phase {
            Phase::CodeEntry => if key.ctrl && key.code == LoginKeyCode::Char('o') {
                match v.url {
                    Some(url) => (
                        LoginView { flash: Some(opened(url)), ..v },
                        Some(CmdView::OpenUrl(url)),
                    ),
                    None => (v, None),
                }
            } else {
                match key.code {
                    LoginKeyCode::Esc => (
                        LoginView {
                            phase: Phase::ProviderPick,
                            input: Seq::empty(),
                            url: None,
                            error: None,
                            ..v
                        },
                        None,
                    ),
                    LoginKeyCode::Enter => spec_submit(v, code_empty_error()),
                    _ => (spec_edit(v, key.code), None),
                }
            },
            Phase::TokenEntry => match key.code {
                LoginKeyCode::Esc => (
                    LoginView { phase: Phase::Idle, input: Seq::empty(), ..v },
                    None,
                ),
                LoginKeyCode::Enter => spec_submit(v, token_empty_error()),
                _ => (spec_edit(v, key.code), None),
            },
            Phase::ProviderPick => match key.code {
                LoginKeyCode::Esc => (LoginView { phase: Phase::Idle, ..v }, None),
                LoginKeyCode::Up => (
                    LoginView {
                        provider_index: wrap_step(v.provider_index, PROVIDERS_LEN as int, false),
                        ..v
                    },
                    None,
                ),
                LoginKeyCode::Down => (
                    LoginView {
                        provider_index: wrap_step(v.provider_index, PROVIDERS_LEN as int, true),
                        ..v
                    },
                    None,
                ),
                LoginKeyCode::Enter => spec_activate_provider(v),
                _ => (v, None),
            },
            Phase::Starting | Phase::Waiting => match key.code {
                LoginKeyCode::Esc => (
                    LoginView {
                        phase: Phase::ProviderPick,
                        url: None,
                        port: None,
                        error: None,
                        ..v
                    },
                    Some(CmdView::CancelLoopback),
                ),
                _ => (v, None),
            },
            Phase::Verifying => (v, None),
            Phase::Idle => match key.code {
                LoginKeyCode::Up => (
                    LoginView { menu_index: wrap_step(v.menu_index, MENU_LEN as int, false), ..v },
                    None,
                ),
                LoginKeyCode::Down => (
                    LoginView { menu_index: wrap_step(v.menu_index, MENU_LEN as int, true), ..v },
                    None,
                ),
                LoginKeyCode::Enter => spec_activate_menu(v),
                _ => (v, None),
            },
        }
    }
}

/// What an async event does to the screen.
pub open spec fn spec_apply(v: LoginView, ev: EventView) -> LoginView {
    match ev {
        EventView::LoopbackStarted(url, port) => LoginView {
            phase: Phase::Waiting,
            url: Some(url),
            port: Some(port),
            error: None,
            ..v
        },
        EventView::CallbackToken(_) => LoginView {
            resume_phase: Phase::Idle,
            phase: Phase::Verifying,
            flash: Some(callback_flash()),
            error: None,
            ..v
        },
        EventView::CallbackError(msg) => LoginView {
            phase: Phase::Idle,
            url: None,
            port: None,
            error: Some(msg),
            ..v
        },
        EventView::Verified(jwt, who) => LoginView {
            flash: Some(who),
            error: None,
            outcome: Some(OutcomeView::Token(jwt)),
            ..v
        },
        EventView::VerifyFailed(msg) => LoginView { phase: v.resume_phase, error: Some(msg), ..v },
    }
}

/// A browser sign-in whose captured token then fails verification goes back
/// to the menu, showing why: the callback has already come, so there is
/// nothing left to wait for.
pub proof fn lemma_failed_callback_verification_returns_to_menu(
    v: LoginView,
    token: Seq<char>,
    message: Seq<char>,
)
    ensures
        spec_apply(spec_apply(v, EventView::CallbackToken(token)), EventView::VerifyFailed(message)).phase
            == Phase::Idle,
        spec_apply(spec_apply(v, EventView::CallbackToken(token)), EventView::VerifyFailed(message)).error
            == Some(message),
{
}

/// A bracketed paste lands in the active input, flattened; anywhere else it
/// is ignored.
pub open spec fn spec_paste(v: LoginView, text: Seq<char>) -> LoginView {
    if v.phase == Phase::TokenEntry || v.phase == Phase::CodeEntry {
        LoginView { input: v.input + flatten_paste_spec(text), ..v }
    } else {
        v
    }
}

impl LoginScreen {
    /// The highlighted rows are rows of their lists.
    pub closed spec fn wf(&self) -> bool {
        self.menu_index < MENU_LEN && self.provider_index < PROVIDERS_LEN
    }

    /// Well-formedness is what the view's indices say.
    pub proof fn lemma_wf_is_in_range(&self)
        ensures
            self.wf() <==> (self@.menu_index < MENU_LEN && self@.provider_index < PROVIDERS_LEN),
    {
    }

    /// A fresh screen for `base_url`, on the menu's first row.
    pub fn new(base_url: &str) -> (r: Self)
        ensures
            r.wf(),
            r@ == (LoginView {
                base_url: base_url@,
                provider: Provider::Google,
                method: SignInMethod::Browser,
                menu_index: 0,
                provider_index: 0,
                phase: Phase::Idle,
                resume_phase: Phase::Idle,
                url: None,
                port: None,
                input: Seq::empty(),
                error: None,
                flash: None,
                frame: 0,
                outcome: None,
            }),
    {
        LoginScreen {
            base_url: to_string(base_url),
            provider: Provider::default_provider(),
            method: SignInMethod::Browser,
            menu_index: 0,
            provider_index: 0,
            phase: Phase::Idle,
            resume_phase: Phase::Idle,
            url: None,
            port: None,
            input: String::new(),
            error: None,
            flash: None,
            frame: 0,
            outcome: None,
        }
    }

    /// The terminal outcome, once the screen has reached one.
    pub fn outcome(&self) -> (r: Option<LoginOutcome>)
        ensures
            opt_outcome(r) == self@.outcome,
    {
        match &self.outcome {
            Some(LoginOutcome::Token(t)) => Some(LoginOutcome::Token(t.clone())),
            Some(LoginOutcome::Quit) => Some(LoginOutcome::Quit),
            None => None,
        }
    }

    /// The currently selected provider.
    pub fn provider(&self) -> (r: Provider)
        ensures
            r == self@.provider,
    {
        self.provider
    }

    /// The sign-in method chosen on the menu.
    pub fn method(&self) -> (r: SignInMethod)
        ensures
            r == self@.method,
    {
        self.method
    }

    /// Where the flow is.
    pub fn phase(&self) -> (r: Phase)
        ensures
            r == self@.phase,
    {
        self.phase
    }

    /// The backend the screen signs in to.
    pub fn base_url(&self) -> (r: &str)
        ensures
            r@ == self@.base_url,
    {
        self.base_url.as_str()
    }

    /// The URL being shown, if any.
    pub fn url(&self) -> (r: Option<&str>)
        ensures
            opt_str_seq(r) == self@.url,
    {
        match &self.url {
            Some(u) => Some(u.as_str()),
            None => None,
        }
    }

    /// The loopback port being listened on, if any.
    pub fn port(&self) -> (r: Option<u16>)
        ensures
            r == self@.port,
    {
        self.port
    }

    /// The single-line input.
    pub fn input(&self) -> (r: &str)
        ensures
            r@ == self@.input,
    {
        self.input.as_str()
    }

    /// The inline error, if any.
    pub fn error(&self) -> (r: Option<&str>)
        ensures
            opt_str_seq(r) == self@.error,
    {
        match &self.error {
            Some(e) => Some(e.as_str()),
            None => None,
        }
    }

    /// The transient notice, if any.
    pub fn flash(&self) -> (r: Option<&str>)
        ensures
            opt_str_seq(r) == self@.flash,
    {
        match &self.flash {
            Some(f) => Some(f.as_str()),
            None => None,
        }
    }

    /// The spinner frame.
    pub fn frame(&self) -> (r: usize)
        ensures
            r == self@.frame,
    {
        self.frame
    }

    /// The highlighted menu row.
    pub fn menu_index(&self) -> (r: usize)
        ensures
            r == self@.menu_index,
    {
        self.menu_index
    }

    /// Advance the spinner (called on the pre-app loop tick).
    pub fn tick(&mut self)
        ensures
            final(self)@ == (LoginView {
                frame: if old(self)@.frame == usize::MAX {
                    0
                } else {
                    old(self)@.frame + 1
                },
                ..old(self)@
            }),
            final(self).wf() == old(self).wf(),
    {
        self.frame = if self.frame == usize::MAX {
            0
        } else {
            self.frame + 1
        };
    }

    /// Move a wrapping list selection.
    fn move_index(index: usize, len: usize, down: bool) -> (r: usize)
        requires
            index < len <= MENU_LEN,
        ensures
            r == wrap_step(index as int, len as int, down),
            r < len,
    {
        if down {
            (index + 1) % len
        } else {
            (index + len - 1) % len
        }
    }

    /// Act on the highlighted Idle row.
    fn activate_menu(&mut self) -> (r: Option<LoginCmd>)
        requires
            old(self).wf(),
        ensures
            final(self).wf(),
            (final(self)@, opt_cmd(r)) == spec_activate_menu(old(self)@),
    {
        let row = if self.menu_index < MENU_LEN - 1 {
            self.menu_index
        } else {
            MENU_LEN - 1
        };
        match menu_item(row) {
            MenuItem::Method(method) => {
                self.method = method;
                self.phase = Phase::ProviderPick;
                self.provider_index = 0;
                self.error = None;
                self.flash = None;
                None
            },
            MenuItem::PasteKey => {
                self.phase = Phase::TokenEntry;
                self.input = String::new();
                self.error = None;
                self.flash = None;
                None
            },
            MenuItem::Docs => {
                let url = "https://tinyhumans.gitbook.io/medulla";
                self.flash = Some(concat("opened ", url));
                self.error = None;
                Some(LoginCmd::OpenUrl(to_string(url)))
            },
            MenuItem::Star => {
                let url = "https://github.com/tinyhumansai/medulla";
                self.flash = Some(concat("opened ", url));
                self.error = None;
                Some(LoginCmd::OpenUrl(to_string(url)))
            },
            MenuItem::Quit => {
                self.outcome = Some(LoginOutcome::Quit);
                None
            },
        }
    }

    /// Start the chosen method's flow with the highlighted provider.
    fn activate_provider(&mut self) -> (r: Option<LoginCmd>)
        requires
            old(self).wf(),
        ensures
            final(self).wf(),
            (final(self)@, opt_cmd(r)) == spec_activate_provider(old(self)@),
    {
        let row = if self.provider_index < PROVIDERS_LEN - 1 {
            self.provider_index
        } else {
            PROVIDERS_LEN - 1
        };
        let provider = provider_row(row);
        self.provider = provider;
        self.error = None;
        self.flash = None;
        match self.method {
            SignInMethod::Browser => {
                self.phase = Phase::Starting;
                Some(LoginCmd::StartLoopback { base_url: self.base_url.clone(), provider })
            },
            SignInMethod::Code => {
                self.phase = Phase::CodeEntry;
                self.url = Some(code_login_url(self.base_url.as_str(), provider));
                self.input = String::new();
                None
            },
        }
    }

    /// Submit whatever is in the single-line input, or refuse an empty one.
    fn submit_input(&mut self, empty_error: &str) -> (r: Option<LoginCmd>)
        requires
            old(self).wf(),
        ensures
            final(self).wf(),
            (final(self)@, opt_cmd(r)) == spec_submit(old(self)@, empty_error@),
    {
        let token_chars = trimmed_chars(self.input.as_str());
        if token_chars.len() == 0 {
            self.error = Some(to_string(empty_error));
            return None;
        }
        let token = crate::text::string_from_chars(token_chars.as_slice(), 0, token_chars.len());
        assert(token@ =~= trimmed(old(self)@.input));
        self.input = String::new();
        self.error = None;
        self.flash = None;
        self.resume_phase = self.phase;
        self.phase = Phase::Verifying;
        Some(LoginCmd::SubmitToken(token))
    }

    /// Apply an edit key to the single-line input.
    fn edit_input(&mut self, code: LoginKeyCode)
        requires
            old(self).wf(),
        ensures
            final(self).wf(),
            final(self)@ == spec_edit(old(self)@, code),
    {
        match code {
            LoginKeyCode::Backspace => {
                let _ = string_pop(&mut self.input);
            },
            LoginKeyCode::Char(c) => {
                string_push(&mut self.input, c);
            },
            _ => {},
        }
    }

    /// Append a bracketed-paste payload to the active single-line input,
    /// line breaks flattened to spaces; ignored in every other phase.
    pub fn handle_paste(&mut self, text: &str)
        requires
            old(self).wf(),
        ensures
            final(self).wf(),
            final(self)@ == spec_paste(old(self)@, text@),
    {
        match self.phase {
            Phase::TokenEntry | Phase::CodeEntry => {
                push_flattened(&mut self.input, text);
            },
            _ => {},
        }
    }

    /// Handle one key, optionally emitting an async command.
    pub fn handle_key(&mut self, key: LoginKey) -> (r: Option<LoginCmd>)
        requires
            old(self).wf(),
        ensures
            final(self).wf(),
            (final(self)@, opt_cmd(r)) == spec_handle_key(old(self)@, key),
    {
        if key.ctrl && key.code == LoginKeyCode::Char('c') {
            self.outcome = Some(LoginOutcome::Quit);
            return None;
        }
        match self.phase {
            Phase::CodeEntry => {
                if key.ctrl && key.code == LoginKeyCode::Char('o') {
                    return match &self.url {
                        Some(url) => {
                            let url = url.clone();
                            self.flash = Some(concat("opened ", url.as_str()));
                            Some(LoginCmd::OpenUrl(url))
                        },
                        None => None,
                    };
                }
                match key.code {
                    LoginKeyCode::Esc => {
                        self.phase = Phase::ProviderPick;
                        self.input = String::new();
                        self.url = None;
                        self.error = None;
                        None
                    },
                    LoginKeyCode::Enter => self.submit_input("paste the code from the browser first"),
                    code => {
                        self.edit_input(code);
                        None
                    },
                }
            },
            Phase::TokenEntry => match key.code {
                LoginKeyCode::Esc => {
                    self.phase = Phase::Idle;
                    self.input = String::new();
                    None
                },
                LoginKeyCode::Enter => self.submit_input("enter a token first"),
                code => {
                    self.edit_input(code);
                    None
                },
            },
            Phase::ProviderPick => match key.code {
                LoginKeyCode::Esc => {
                    self.phase = Phase::Idle;
                    None
                },
                LoginKeyCode::Up => {
                    self.provider_index = Self::move_index(self.provider_index, PROVIDERS_LEN, false);
                    None
                },
                LoginKeyCode::Down => {
                    self.provider_index = Self::move_index(self.provider_index, PROVIDERS_LEN, true);
                    None
                },
                LoginKeyCode::Enter => self.activate_provider(),
                _ => None,
            },
            Phase::Starting | Phase::Waiting => match key.code {
                LoginKeyCode::Esc => {
                    self.phase = Phase::ProviderPick;
                    self.url = None;
                    self.port = None;
                    self.error = None;
                    Some(LoginCmd::CancelLoopback)
                },
                _ => None,
            },
            Phase::Verifying => None,
            Phase::Idle => match key.code {
                LoginKeyCode::Up => {
                    self.menu_index = Self::move_index(self.menu_index, MENU_LEN, false);
                    None
                },
                LoginKeyCode::Down => {
                    self.menu_index = Self::move_index(self.menu_index, MENU_LEN, true);
                    None
                },
                LoginKeyCode::Enter => self.activate_menu(),
                _ => None,
            },
        }
    }

    /// Fold an async event back into screen state.
    pub fn apply(&mut self, ev: LoginEvent)
        requires
            old(self).wf(),
        ensures
            final(self).wf(),
            final(self)@ == spec_apply(old(self)@, ev@),
    {
        match ev {
            LoginEvent::LoopbackStarted { url, port } => {
                self.phase = Phase::Waiting;
                self.url = Some(url);
                self.port = Some(port);
                self.error = None;
            },
            LoginEvent::CallbackToken(_) => {
                self.resume_phase = Phase::Idle;
                self.phase = Phase::Verifying;
                self.flash = Some(to_string("callback received — verifying…"));
                self.error = None;
            },
            LoginEvent::CallbackError(msg) => {
                self.phase = Phase::Idle;
                self.url = None;
                self.port = None;
                self.error = Some(msg);
            },
            LoginEvent::Verified { jwt, who } => {
                self.flash = Some(who);
                self.error = None;
                self.outcome = Some(LoginOutcome::Token(jwt));
            },
            LoginEvent::VerifyFailed(msg) => {
                self.phase = self.resume_phase;
                self.error = Some(msg);
            },
        }
    }
}

} // verus!

verus! {

/// The menus wrap at both ends: up from the first row is the last row, down
/// from the last is the first, and down then up comes back to where it began.
pub proof fn lemma_menus_wrap(index: int, len: int)
    requires
        0 <= index < len,
    ensures
        wrap_step(0, len, false) == len - 1,
        wrap_step(len - 1, len, true) == 0,
        wrap_step(wrap_step(index, len, true), len, false) == index,
        wrap_step(wrap_step(index, len, false), len, true) == index,
        0 <= wrap_step(index, len, true) < len,
        0 <= wrap_step(index, len, false) < len,
{
    assert((0 + len - 1) % len == len - 1) by (nonlinear_arith)
        requires
            len > 0,
    ;
    assert((len - 1 + 1) % len == 0) by (nonlinear_arith)
        requires
            len > 0,
    ;
    if index + 1 < len {
        assert((index + 1) % len == index + 1) by (nonlinear_arith)
            requires
                0 <= index + 1 < len,
        ;
        assert((index + 1 + len - 1) % len == index) by (nonlinear_arith)
            requires
                0 <= index < len,
        ;
    } else {
        assert((index + 1) % len == 0) by (nonlinear_arith)
            requires
                index + 1 == len,
                len > 0,
        ;
        assert((0 + len - 1) % len == index) by (nonlinear_arith)
            requires
                index == len - 1,
                len > 0,
        ;
    }
    if index > 0 {
        assert((index + len - 1) % len == index - 1) by (nonlinear_arith)
            requires
                0 < index < len,
        ;
        assert((index - 1 + 1) % len == index) by (nonlinear_arith)
            requires
                0 < index < len,
        ;
    } else {
        assert((0 + len - 1 + 1) % len == 0) by (nonlinear_arith)
            requires
                len > 0,
        ;
    }
    assert(0 <= (index + 1) % len < len) by (nonlinear_arith)
        requires
            len > 0,
    ;
    assert(0 <= (index + len - 1) % len < len) by (nonlinear_arith)
        requires
            len > 0,
    ;
}

/// On the menu no letter fires anything: a plain character changes nothing
/// and emits no command.
pub proof fn lemma_letters_fire_nothing(v: LoginView, c: char)
    requires
        v.phase == Phase::Idle,
    ensures
        spec_handle_key(v, LoginKey { code: LoginKeyCode::Char(c), ctrl: false }) == (v, None::<CmdView>),
{
}

/// Ctrl-C quits from anywhere, emitting nothing.
pub proof fn lemma_ctrl_c_quits(v: LoginView)
    ensures
        ({
            let (w, cmd) = spec_handle_key(v, LoginKey { code: LoginKeyCode::Char('c'), ctrl: true });
            w.outcome == Some(OutcomeView::Quit) && cmd is None
        }),
{
}

/// A paste outside the code and key inputs is ignored.
pub proof fn lemma_stray_paste_ignored(v: LoginView, text: Seq<char>)
    requires
        v.phase != Phase::TokenEntry,
        v.phase != Phase::CodeEntry,
    ensures
        spec_paste(v, text) == v,
{
}

/// A rejected code or key returns the screen to the input that submitted it,
/// with the verification URL still up and the reason shown — not to the menu.
pub proof fn lemma_rejection_returns_to_the_input(v: LoginView, msg: Seq<char>)
    requires
        v.phase == Phase::CodeEntry || v.phase == Phase::TokenEntry,
        trimmed(v.input).len() > 0,
    ensures
        ({
            let (w, cmd) = spec_handle_key(v, LoginKey { code: LoginKeyCode::Enter, ctrl: false });
            let x = spec_apply(w, EventView::VerifyFailed(msg));
            &&& cmd == Some(CmdView::SubmitToken(trimmed(v.input)))
            &&& w.phase == Phase::Verifying
            &&& x.phase == v.phase
            &&& x.url == v.url
            &&& x.error == Some(msg)
        }),
{
}

/// The link rows open a browser tab and leave the menu exactly where it was:
/// same row, same phase, no outcome settled.
pub proof fn lemma_link_rows_keep_the_menu(v: LoginView)
    requires
        v.phase == Phase::Idle,
        v.menu_index == 3 || v.menu_index == 4,
    ensures
        ({
            let (w, cmd) = spec_handle_key(v, LoginKey { code: LoginKeyCode::Enter, ctrl: false });
            &&& w.phase == Phase::Idle
            &&& w.menu_index == v.menu_index
            &&& w.outcome == v.outcome
            &&& cmd == Some(CmdView::OpenUrl(if v.menu_index == 3 {
                docs_url()
            } else {
                repo_url()
            }))
        }),
{
}

/// A captured callback token does not settle the outcome: only verification
/// does, and then with exactly the verified token.
pub proof fn lemma_only_verification_settles(v: LoginView, token: Seq<char>, jwt: Seq<char>, who: Seq<char>)
    ensures
        spec_apply(v, EventView::CallbackToken(token)).outcome == v.outcome,
        spec_apply(v, EventView::CallbackToken(token)).phase == Phase::Verifying,
        spec_apply(v, EventView::Verified(jwt, who)).outcome == Some(OutcomeView::Token(jwt)),
{
}

/// Esc while the browser flow is starting or waiting cancels it and returns to
/// the provider list.
pub proof fn lemma_esc_cancels_loopback(v: LoginView)
    requires
        v.phase == Phase::Starting || v.phase == Phase::Waiting,
    ensures
        ({
            let (w, cmd) = spec_handle_key(v, LoginKey { code: LoginKeyCode::Esc, ctrl: false });
            w.phase == Phase::ProviderPick && w.url is None && w.port is None && cmd == Some(
                CmdView::CancelLoopback,
            )
        }),
{
}

} // verus!
