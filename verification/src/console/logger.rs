//! How the console logs.

use crate::text::{join2, join3};
use vstd::prelude::*;
use vstd::string::*;

verus! {

/// Where log lines go.
#[derive(Clone, Copy, PartialEq, Eq, Structural, Debug)]
pub enum LogTarget {
    Stderr,
    File,
}

/// How log lines look.
#[derive(Clone, Copy, PartialEq, Eq, Structural, Debug)]
pub enum LogFormat {
    Json,
    Compact,
}

/// How the console logs.
pub struct LogPlan {
    pub format: LogFormat,
    pub target: LogTarget,
    /// Whether log lines are coloured.
    pub ansi: bool,
    /// What is said of the log file.
    pub notice: Option<String>,
}

/// The file that log lines go to while the terminal is drawn on.
pub open spec fn log_file() -> Seq<char> {
    "hiroz-console.log"@
}

/// The file that log lines go to while the terminal is drawn on.
pub fn tui_log_file() -> (s: String)
    ensures
        s@ == log_file(),
{
    "hiroz-console.log".to_owned()
}

/// The filter where the environment names none.
pub open spec fn directives(debug: bool) -> Seq<char> {
    if debug {
        "hiroz=debug,zenoh=debug"@
    } else {
        "hiroz=info,zenoh=warn"@
    }
}

/// The filter where the environment names none.
pub fn default_filter(debug: bool) -> (s: String)
    ensures
        s@ == directives(debug),
{
    if debug {
        "hiroz=debug,zenoh=debug".to_owned()
    } else {
        "hiroz=info,zenoh=warn".to_owned()
    }
}

/// What is said of the log file, where there is to be one. `failure` is why it
/// could not be opened.
pub open spec fn log_notice(tui: bool, failure: Option<String>) -> Option<Seq<char>> {
    if !tui {
        None
    } else {
        match failure {
            None => Some("hiroz-console: logging to "@ + log_file()),
            Some(e) => Some(
                "hiroz-console: could not open "@ + log_file() + (" ("@ + e@
                    + "); logging to stderr"@),
            ),
        }
    }
}

/// `p` is how the console logs.
pub open spec fn is_log_plan(
    json_mode: bool,
    tui: bool,
    failure: Option<String>,
    p: LogPlan,
) -> bool {
    &&& p.format == (if json_mode {
        LogFormat::Json
    } else {
        LogFormat::Compact
    })
    &&& p.target == (if tui && failure is None {
        LogTarget::File
    } else {
        LogTarget::Stderr
    })
    &&& p.ansi == (!json_mode && !tui)
    &&& match p.notice {
        Some(s) => log_notice(tui, failure) == Some(s@),
        None => log_notice(tui, failure) is None,
    }
}

/// Decides how the console logs. `tui` says whether the terminal is drawn on;
/// then log lines go to a file, unless it could not be opened.
pub fn init_logger(json_mode: bool, tui: bool, failure: Option<String>) -> (p: LogPlan)
    ensures
        is_log_plan(json_mode, tui, failure, p),
        p.target is File ==> !p.ansi,
{
    let format = if json_mode {
        LogFormat::Json
    } else {
        LogFormat::Compact
    };
    let ansi = !json_mode && !tui;
    if !tui {
        return LogPlan { format, target: LogTarget::Stderr, ansi, notice: None };
    }
    let file = tui_log_file();
    match failure {
        None => LogPlan {
            format,
            target: LogTarget::File,
            ansi,
            notice: Some(join2("hiroz-console: logging to ", file.as_str())),
        },
        Some(e) => {
            let rest = join3(" (", e.as_str(), "); logging to stderr");
            LogPlan {
                format,
                target: LogTarget::Stderr,
                ansi,
                notice: Some(
                    join3("hiroz-console: could not open ", file.as_str(), rest.as_str()),
                ),
            }
        },
    }
}

} // verus!
