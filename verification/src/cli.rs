//! Parsing for the `medulla login` command and its authentication options.

use vstd::prelude::*;

use crate::login::Provider;
use crate::text::{concat, str_eq};

verus! {

/// The options of `medulla login`.
#[derive(Debug, Clone, PartialEq, Eq)]
pub struct LoginArgs {
    /// An explicit config file.
    pub config: Option<String>,
    /// The provider of a browser sign-in.
    pub provider: Provider,
    /// A one-time token to redeem instead of signing in through a browser.
    pub token: Option<String>,
    /// Print the sign-in URL rather than opening a browser.
    pub no_browser: bool,
    /// Sign in with a code entered on another device.
    pub code: bool,
}

/// The mathematical value of [`LoginArgs`].
pub struct LoginArgsView {
    /// See [`LoginArgs::config`].
    pub config: Option<Seq<char>>,
    /// See [`LoginArgs::provider`].
    pub provider: Provider,
    /// See [`LoginArgs::token`].
    pub token: Option<Seq<char>>,
    /// See [`LoginArgs::no_browser`].
    pub no_browser: bool,
    /// See [`LoginArgs::code`].
    pub code: bool,
}

/// The view of an optional owned string.
pub open spec fn opt_string_view(s: Option<String>) -> Option<Seq<char>> {
    match s {
        Some(s) => Some(s@),
        None => None,
    }
}

impl View for LoginArgs {
    type V = LoginArgsView;

    open spec fn view(&self) -> LoginArgsView {
        LoginArgsView {
            config: opt_string_view(self.config),
            provider: self.provider,
            token: opt_string_view(self.token),
            no_browser: self.no_browser,
            code: self.code,
        }
    }
}

/// The options before any flag is read: no config file, Google, no token,
/// a browser, and the loopback method.
pub open spec fn default_login_args() -> LoginArgsView {
    LoginArgsView {
        config: None,
        provider: Provider::Google,
        token: None,
        no_browser: false,
        code: false,
    }
}

impl Default for LoginArgs {
    fn default() -> (r: Self)
        ensures
            r@ == default_login_args(),
    {
        LoginArgs {
            config: None,
            provider: Provider::default_provider(),
            token: None,
            no_browser: false,
            code: false,
        }
    }
}

/// The refusal of an unknown `--provider` value: it names the offending flag,
/// then the value it was given.
pub open spec fn unknown_provider(value: Seq<char>) -> Seq<char> {
    "--provider: unknown provider '"@ + value + "'"@
}

/// Read the flags in `args` on top of `acc`, front to back. A value flag takes
/// the next argument as its value (a value flag at the very end is ignored);
/// a later flag overrides an earlier one; anything unrecognised is skipped.
/// The first `--provider` value that names no provider is refused.
pub open spec fn spec_parse_login_args(args: Seq<String>, acc: LoginArgsView) -> Result<
    LoginArgsView,
    Seq<char>,
>
    decreases args.len(),
{
    if args.len() == 0 {
        Ok(acc)
    } else {
        let flag = args[0]@;
        let has_value = args.len() >= 2;
        if flag == "--config"@ {
            if has_value {
                spec_parse_login_args(args.skip(2), LoginArgsView { config: Some(args[1]@), ..acc })
            } else {
                Ok(acc)
            }
        } else if flag == "--provider"@ {
            if has_value {
                match Provider::spec_parse(args[1]@) {
                    Some(p) => spec_parse_login_args(
                        args.skip(2),
                        LoginArgsView { provider: p, ..acc },
                    ),
                    None => Err(unknown_provider(args[1]@)),
                }
            } else {
                Ok(acc)
            }
        } else if flag == "--token"@ {
            if has_value {
                spec_parse_login_args(args.skip(2), LoginArgsView { token: Some(args[1]@), ..acc })
            } else {
                Ok(acc)
            }
        } else if flag == "--no-browser"@ {
            spec_parse_login_args(args.skip(1), LoginArgsView { no_browser: true, ..acc })
        } else if flag == "--code"@ {
            spec_parse_login_args(args.skip(1), LoginArgsView { code: true, ..acc })
        } else {
            spec_parse_login_args(args.skip(1), acc)
        }
    }
}

/// The view of a parse result.
pub open spec fn parse_result_view(r: Result<LoginArgs, String>) -> Result<LoginArgsView, Seq<char>> {
    match r {
        Ok(a) => Ok(a@),
        Err(e) => Err(e@),
    }
}

/// Parse `medulla login` flags out of the args following `login`. An unknown
/// `--provider` value is refused with a message that names the offending flag.
pub fn parse_login_args(args: &[String]) -> (r: Result<LoginArgs, String>)
    ensures
        parse_result_view(r) == spec_parse_login_args(args@, default_login_args()),
{
    let mut out = LoginArgs::default();
    let mut i: usize = 0;
    assert(args@.skip(0) =~= args@);
    while i < args.len()
        invariant
            i <= args@.len(),
            spec_parse_login_args(args@.skip(i as int), out@) == spec_parse_login_args(
                args@,
                default_login_args(),
            ),
        decreases args@.len() - i,
    {
        let rest = Ghost(args@.skip(i as int));
        assert(rest@[0] == args@[i as int]);
        let arg = args[i].as_str();
        let has_value = i + 1 < args.len();
        if has_value {
            assert(rest@[1] == args@[i + 1]);
            assert(rest@.skip(2) =~= args@.skip(i + 2));
        }
        assert(rest@.skip(1) =~= args@.skip(i + 1));
        if str_eq(arg, "--config") {
            if !has_value {
                return Ok(out);
            }
            out.config = Some(args[i + 1].clone());
            assert(out.config == Some(args@[i + 1]));
            i += 2;
        } else if str_eq(arg, "--provider") {
            if !has_value {
                return Ok(out);
            }
            let v = args[i + 1].as_str();
            match Provider::parse(v) {
                Some(p) => {
                    out.provider = p;
                    i += 2;
                },
                None => {
                    let msg = concat("--provider: unknown provider '", v);
                    let msg = concat(msg.as_str(), "'");
                    return Err(msg);
                },
            }
        } else if str_eq(arg, "--token") {
            if !has_value {
                return Ok(out);
            }
            out.token = Some(args[i + 1].clone());
            assert(out.token == Some(args@[i + 1]));
            i += 2;
        } else if str_eq(arg, "--no-browser") {
            out.no_browser = true;
            i += 1;
        } else if str_eq(arg, "--code") {
            out.code = true;
            i += 1;
        } else {
            i += 1;
        }
    }
    assert(args@.skip(i as int).len() == 0);
    Ok(out)
}


/// Whether the flags of `args` read to its very end: no value flag stands last
/// waiting for a value.
pub open spec fn reads_whole(args: Seq<String>) -> bool
    decreases args.len(),
{
    if args.len() == 0 {
        true
    } else {
        let flag = args[0]@;
        if flag == "--config"@ || flag == "--provider"@ || flag == "--token"@ {
            args.len() >= 2 && reads_whole(args.skip(2))
        } else {
            reads_whole(args.skip(1))
        }
    }
}

/// Reading `front` then `back` is reading `back` on top of what `front` gave,
/// when `front` reads to its end.
proof fn lemma_parse_concat(front: Seq<String>, back: Seq<String>, acc: LoginArgsView)
    requires
        reads_whole(front),
    ensures
        spec_parse_login_args(front + back, acc) == match spec_parse_login_args(front, acc) {
            Ok(o) => spec_parse_login_args(back, o),
            Err(e) => Err(e),
        },
    decreases front.len(),
{
    reveal_strlit("--config");
    reveal_strlit("--provider");
    reveal_strlit("--token");
    if front.len() == 0 {
        assert(front + back =~= back);
        assert(spec_parse_login_args(front, acc) == Ok::<LoginArgsView, Seq<char>>(acc));
    } else {
        let all = front + back;
        assert(all[0] == front[0]);
        let flag = front[0]@;
        if flag == "--config"@ || flag == "--provider"@ || flag == "--token"@ {
            assert(all[1] == front[1]);
            assert(all.skip(2) =~= front.skip(2) + back);
            assert(front.len() >= 2);
            if flag == "--config"@ {
                let acc2 = LoginArgsView { config: Some(front[1]@), ..acc };
                assert(spec_parse_login_args(front, acc) == spec_parse_login_args(front.skip(2), acc2));
                assert(spec_parse_login_args(all, acc) == spec_parse_login_args(all.skip(2), acc2));
                lemma_parse_concat(front.skip(2), back, acc2);
            } else if flag == "--provider"@ {
                match Provider::spec_parse(front[1]@) {
                    Some(p) => {
                        let acc2 = LoginArgsView { provider: p, ..acc };
                        assert(spec_parse_login_args(front, acc) == spec_parse_login_args(front.skip(2), acc2));
                        assert(spec_parse_login_args(all, acc) == spec_parse_login_args(all.skip(2), acc2));
                        lemma_parse_concat(front.skip(2), back, acc2);
                    },
                    None => {
                        assert(spec_parse_login_args(front, acc) == Err::<LoginArgsView, Seq<char>>(unknown_provider(front[1]@)));
                        assert(spec_parse_login_args(all, acc) == Err::<LoginArgsView, Seq<char>>(unknown_provider(front[1]@)));
                    },
                }
            } else {
                let acc2 = LoginArgsView { token: Some(front[1]@), ..acc };
                assert(spec_parse_login_args(front, acc) == spec_parse_login_args(front.skip(2), acc2));
                assert(spec_parse_login_args(all, acc) == spec_parse_login_args(all.skip(2), acc2));
                lemma_parse_concat(front.skip(2), back, acc2);
            }
        } else {
            assert(all.skip(1) =~= front.skip(1) + back);
            if flag == "--no-browser"@ {
                lemma_parse_concat(front.skip(1), back, LoginArgsView { no_browser: true, ..acc });
            } else if flag == "--code"@ {
                lemma_parse_concat(front.skip(1), back, LoginArgsView { code: true, ..acc });
            } else {
                lemma_parse_concat(front.skip(1), back, acc);
            }
        }
    }
}

/// The last value given to a flag wins: after any arguments that read to
/// their end, a final `--config v` or `--token v` sets that option to `v`,
/// and a final `--provider v` naming a provider sets the provider, leaving
/// every other option as the earlier arguments left it.
pub proof fn lemma_last_value_wins(front: Seq<String>, flag: String, value: String)
    requires
        reads_whole(front),
    ensures
        ({
            let before = spec_parse_login_args(front, default_login_args());
            let after = spec_parse_login_args(front + seq![flag, value], default_login_args());
            &&& flag@ == "--config"@ ==> after == match before {
                Ok(o) => Ok(LoginArgsView { config: Some(value@), ..o }),
                Err(e) => Err(e),
            }
            &&& flag@ == "--token"@ ==> after == match before {
                Ok(o) => Ok(LoginArgsView { token: Some(value@), ..o }),
                Err(e) => Err(e),
            }
            &&& (flag@ == "--provider"@ && Provider::spec_parse(value@) is Some) ==> after == match before {
                Ok(o) => Ok(LoginArgsView { provider: Provider::spec_parse(value@)->0, ..o }),
                Err(e) => Err(e),
            }
        }),
{
    let back = seq![flag, value];
    lemma_parse_concat(front, back, default_login_args());
    assert(back.skip(2) =~= Seq::<String>::empty());
    assert(back[0] == flag && back[1] == value);
    reveal_strlit("--config");
    reveal_strlit("--token");
    reveal_strlit("--provider");
    assert(back.len() == 2);
    assert forall|o: LoginArgsView| flag@ == "--config"@ implies #[trigger] spec_parse_login_args(back, o)
        == Ok::<LoginArgsView, Seq<char>>(LoginArgsView { config: Some(value@), ..o }) by {
        let o2 = LoginArgsView { config: Some(value@), ..o };
        assert(spec_parse_login_args(back.skip(2), o2) == Ok::<LoginArgsView, Seq<char>>(o2));
    }
    assert forall|o: LoginArgsView| flag@ == "--token"@ implies #[trigger] spec_parse_login_args(back, o)
        == Ok::<LoginArgsView, Seq<char>>(LoginArgsView { token: Some(value@), ..o }) by {
        let o2 = LoginArgsView { token: Some(value@), ..o };
        assert("--token"@[2] != "--config"@[2] && "--token"@[2] != "--provider"@[2]);
        assert(spec_parse_login_args(back.skip(2), o2) == Ok::<LoginArgsView, Seq<char>>(o2));
    }
    assert forall|o: LoginArgsView| flag@ == "--provider"@ && Provider::spec_parse(value@) is Some implies
        #[trigger] spec_parse_login_args(back, o) == Ok::<LoginArgsView, Seq<char>>(
        LoginArgsView { provider: Provider::spec_parse(value@)->0, ..o },
    ) by {
        let o2 = LoginArgsView { provider: Provider::spec_parse(value@)->0, ..o };
        assert("--provider"@[2] != "--config"@[2]);
        assert(spec_parse_login_args(back.skip(2), o2) == Ok::<LoginArgsView, Seq<char>>(o2));
    }
}


/// Whether `f` stands in `args` as a flag, read front to back as the parser
/// reads them: values taken by a value flag are not flags.
pub open spec fn flag_seen(args: Seq<String>, f: Seq<char>) -> bool
    decreases args.len(),
{
    if args.len() == 0 {
        false
    } else {
        let flag = args[0]@;
        if flag == f {
            true
        } else if flag == "--config"@ || flag == "--provider"@ || flag == "--token"@ {
            args.len() >= 2 && flag_seen(args.skip(2), f)
        } else {
            flag_seen(args.skip(1), f)
        }
    }
}

/// The switches read on top of `acc` are set exactly when they stand in the
/// arguments as flags.
proof fn lemma_switches_from(args: Seq<String>, acc: LoginArgsView)
    ensures
        spec_parse_login_args(args, acc) matches Ok(o) ==> o.no_browser == (acc.no_browser
            || flag_seen(args, "--no-browser"@)) && o.code == (acc.code || flag_seen(args, "--code"@)),
    decreases args.len(),
{
    reveal_strlit("--config");
    reveal_strlit("--provider");
    reveal_strlit("--token");
    reveal_strlit("--no-browser");
    reveal_strlit("--code");
    assert("--no-browser"@[2] != "--config"@[2] && "--no-browser"@[2] != "--provider"@[2]
        && "--no-browser"@[2] != "--token"@[2] && "--no-browser"@[2] != "--code"@[2]);
    assert("--code"@[4] != "--config"@[4] && "--code"@[2] != "--provider"@[2] && "--code"@[2]
        != "--token"@[2]);
    if args.len() > 0 {
        let flag = args[0]@;
        if flag == "--config"@ {
            if args.len() >= 2 {
                lemma_switches_from(args.skip(2), LoginArgsView { config: Some(args[1]@), ..acc });
            }
        } else if flag == "--provider"@ {
            if args.len() >= 2 {
                match Provider::spec_parse(args[1]@) {
                    Some(p) => lemma_switches_from(args.skip(2), LoginArgsView { provider: p, ..acc }),
                    None => {},
                }
            }
        } else if flag == "--token"@ {
            if args.len() >= 2 {
                lemma_switches_from(args.skip(2), LoginArgsView { token: Some(args[1]@), ..acc });
            }
        } else if flag == "--no-browser"@ {
            lemma_switches_from(args.skip(1), LoginArgsView { no_browser: true, ..acc });
        } else if flag == "--code"@ {
            lemma_switches_from(args.skip(1), LoginArgsView { code: true, ..acc });
        } else {
            lemma_switches_from(args.skip(1), acc);
        }
    }
}

/// `medulla login` reads its switches as flags: when the arguments parse,
/// `--no-browser` and `--code` are set exactly when they stand in the
/// arguments as flags (not as another flag's value). With
/// [`lemma_last_value_wins`], every value option holds the last value given.
pub proof fn lemma_switches_iff_present(args: Seq<String>)
    ensures
        spec_parse_login_args(args, default_login_args()) matches Ok(o) ==> o.no_browser
            == flag_seen(args, "--no-browser"@) && o.code == flag_seen(args, "--code"@),
{
    lemma_switches_from(args, default_login_args());
}
} // verus!
