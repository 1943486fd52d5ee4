//! Decisions made once at startup: which config file receives write-backs,
//! and which status line the first frame shows.

use vstd::prelude::*;

use crate::text::{concat, to_string};

verus! {

/// The file whose values win on the next launch: the explicit `--config`
/// file when one was passed, else the highest-precedence file the layered
/// load read (`sources` runs from lowest to highest), else the home config.
pub open spec fn spec_write_back_target(
    explicit: Option<Seq<char>>,
    sources: Seq<Seq<char>>,
    home_config: Seq<char>,
) -> Seq<char> {
    match explicit {
        Some(p) => p,
        None => if sources.len() > 0 {
            sources.last()
        } else {
            home_config
        },
    }
}

/// Where every write-back (onboarding flag, routing strategy, …) goes, so
/// that a change is not lost to a file that a higher-precedence one overrides.
pub fn write_back_target(explicit: Option<&str>, sources: &[String], home_config: &str) -> (r: String)
    ensures
        r@ == spec_write_back_target(
            match explicit {
                Some(p) => Some(p@),
                None => None,
            },
            sources@.map_values(|s: String| s@),
            home_config@,
        ),
{
    match explicit {
        Some(p) => to_string(p),
        None => if sources.len() > 0 {
            to_string(sources[sources.len() - 1].as_str())
        } else {
            to_string(home_config)
        },
    }
}

/// The status line the first frame shows: what startup itself reported,
/// else the presence service's trouble, else where the log is written.
pub fn startup_notice(
    startup: Option<String>,
    presence: Option<String>,
    log_note: Option<String>,
) -> (r: Option<String>)
    ensures
        r == if startup is Some {
            startup
        } else if presence is Some {
            presence
        } else {
            log_note
        },
{
    match startup {
        Some(s) => Some(s),
        None => match presence {
            Some(p) => Some(p),
            None => log_note,
        },
    }
}


/// What startup itself reports, in the order it happens: a memory service
/// that failed to open, overridden by the offline runtime when `--mock`
/// chose it or when the embedded core had no backend to talk to (which is
/// only asked when `--mock` did not choose a runtime); a failure to host on
/// this device is reported only when nothing else was.
pub open spec fn spec_startup_status(
    memory_error: Option<Seq<char>>,
    mock: bool,
    unconfigured: Option<Seq<char>>,
    host_error: Option<Seq<char>>,
) -> Option<Seq<char>> {
    let before_host = if mock {
        Some("running the offline mock runtime (--mock)"@)
    } else if unconfigured is Some {
        Some(unconfigured->0 + " — running the offline mock runtime"@)
    } else {
        match memory_error {
            Some(e) => Some("memory service failed to open ("@ + e + ")"@),
            None => None,
        }
    };
    match before_host {
        Some(m) => Some(m),
        None => match host_error {
            Some(e) => Some("not hosting on this device ("@ + e + ")"@),
            None => None,
        },
    }
}

/// The view of an optional string slice.
pub open spec fn opt_view(s: Option<&str>) -> Option<Seq<char>> {
    match s {
        Some(t) => Some(t@),
        None => None,
    }
}

/// What startup reports on the status line, given what went wrong or was
/// chosen along the way.
pub fn startup_status(
    memory_error: Option<&str>,
    mock: bool,
    unconfigured: Option<&str>,
    host_error: Option<&str>,
) -> (r: Option<String>)
    ensures
        match r {
            Some(t) => spec_startup_status(
                opt_view(memory_error),
                mock,
                opt_view(unconfigured),
                opt_view(host_error),
            ) == Some(t@),
            None => spec_startup_status(
                opt_view(memory_error),
                mock,
                opt_view(unconfigured),
                opt_view(host_error),
            ) is None,
        },
{
    if mock {
        return Some(to_string("running the offline mock runtime (--mock)"));
    }
    if let Some(why) = unconfigured {
        return Some(concat(why, " — running the offline mock runtime"));
    }
    if let Some(e) = memory_error {
        let a = concat("memory service failed to open (", e);
        return Some(concat(a.as_str(), ")"));
    }
    match host_error {
        Some(e) => {
            let a = concat("not hosting on this device (", e);
            Some(concat(a.as_str(), ")"))
        },
        None => None,
    }
}
} // verus!
