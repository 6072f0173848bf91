//! Log levels and log lines: which messages are written, and their text.
//!
//! The caller supplies the configured level and the timestamp; this module
//! decides whether a message is written and formats the line.
use vstd::prelude::*;
use crate::config;
use crate::text;

verus! {

broadcast use vstd::string::group_string_axioms;

#[derive(Clone, Copy, PartialEq, Eq, Structural, PartialOrd, Ord, Debug)]
pub enum LogLevel {
    Error,
    Warn,
    Info,
    Debug,
}

impl LogLevel {
    /// Verbosity: `Error` is the least verbose, `Debug` the most.
    pub open spec fn rank(self) -> nat {
        match self {
            LogLevel::Error => 0,
            LogLevel::Warn => 1,
            LogLevel::Info => 2,
            LogLevel::Debug => 3,
        }
    }

    pub fn verbosity(&self) -> (r: u8)
        ensures
            r == self.rank(),
    {
        match self {
            LogLevel::Error => 0,
            LogLevel::Warn => 1,
            LogLevel::Info => 2,
            LogLevel::Debug => 3,
        }
    }
}

/// Whether `LIBAGENT_DEBUG` turns debug logging on (`1`, `true`, `yes`, `on`).
pub fn is_debug_enabled_from(env_value: Option<&str>) -> (b: bool)
    ensures
        b == (match env_value {
            Some(v) => config::truthy(v@),
            None => false,
        }),
{
    config::agent_enabled_from(env_value)
}

/// The level named by a `LIBAGENT_LOG` value (trimmed, ASCII case ignored).
pub open spec fn level_named(v: Seq<char>) -> LogLevel {
    let n = text::ascii_lower(text::trim(v));
    if n == "debug"@ {
        LogLevel::Debug
    } else if n == "info"@ {
        LogLevel::Info
    } else if n == "warn"@ || n == "warning"@ {
        LogLevel::Warn
    } else {
        LogLevel::Error
    }
}

/// Each level word, in any ASCII case and with surrounding whitespace,
/// names its level; any other value names `Error`.
pub proof fn lemma_level_names(v: Seq<char>)
    ensures
        ({
            let n = text::ascii_lower(text::trim(v));
            &&& n == "debug"@ ==> level_named(v) == LogLevel::Debug
            &&& n == "info"@ ==> level_named(v) == LogLevel::Info
            &&& (n == "warn"@ || n == "warning"@) ==> level_named(v) == LogLevel::Warn
            &&& n == "error"@ ==> level_named(v) == LogLevel::Error
            &&& (n != "debug"@ && n != "info"@ && n != "warn"@ && n != "warning"@)
                ==> level_named(v) == LogLevel::Error
        }),
{
    reveal_strlit("debug");
    reveal_strlit("info");
    reveal_strlit("warn");
    reveal_strlit("warning");
    reveal_strlit("error");
    assert("debug"@ != "info"@ && "debug"@ != "warn"@ && "debug"@ != "warning"@) by {
        assert("debug"@.len() != "info"@.len());
        assert("debug"@[0] != "warn"@[0]);
        assert("debug"@.len() != "warning"@.len());
    }
    assert("info"@ != "warn"@ && "info"@ != "warning"@) by {
        assert("info"@[0] != "warn"@[0]);
        assert("info"@.len() != "warning"@.len());
    }
    assert("warn"@ != "warning"@) by {
        assert("warn"@.len() != "warning"@.len());
    }
    assert("error"@ != "debug"@ && "error"@ != "info"@ && "error"@ != "warn"@ && "error"@
        != "warning"@) by {
        assert("error"@[0] != "debug"@[0]);
        assert("error"@[0] != "info"@[0]);
        assert("error"@[0] != "warn"@[0]);
        assert("error"@[0] != "warning"@[0]);
    }
}

/// Whitespace characters are never ASCII capitals, so lower-casing and
/// trimming can be done in either order.
proof fn lemma_trim_lower(v: Seq<char>)
    ensures
        text::trim_start(text::ascii_lower(v)) == text::ascii_lower(text::trim_start(v)),
        text::trim_end(text::ascii_lower(v)) == text::ascii_lower(text::trim_end(v)),
    decreases v.len(),
{
    let l = text::ascii_lower(v);
    if v.len() > 0 {
        assert(l[0] == text::lower_char(v[0]));
        assert(l.last() == text::lower_char(v.last()));
        assert(text::is_ws(l[0]) == text::is_ws(v[0]));
        assert(text::is_ws(l.last()) == text::is_ws(v.last()));
        assert(l.drop_first() =~= text::ascii_lower(v.drop_first()));
        assert(l.drop_last() =~= text::ascii_lower(v.drop_last()));
        lemma_trim_lower(v.drop_first());
        lemma_trim_lower(v.drop_last());
    } else {
        assert(l =~= v);
    }
}

/// The level a value names depends only on its ASCII lower-cased form.
pub proof fn lemma_level_ignores_case(v: Seq<char>)
    ensures
        level_named(v) == level_named(text::ascii_lower(v)),
{
    let t = text::trim(v);
    let lv = text::ascii_lower(v);
    lemma_trim_lower(v);
    lemma_trim_lower(text::trim_start(v));
    assert(text::trim(lv) == text::trim_end(text::ascii_lower(text::trim_start(v))));
    assert(text::trim(lv) == text::ascii_lower(t));
    assert(text::ascii_lower(text::ascii_lower(t)) =~= text::ascii_lower(t));
}

/// The configured level: `Debug` when debug logging is on, otherwise the
/// level `LIBAGENT_LOG` names, and `Error` when it is unset or unknown.
pub fn current_log_level_from(debug_enabled: bool, env_value: Option<&str>) -> (l: LogLevel)
    ensures
        l == (if debug_enabled {
            LogLevel::Debug
        } else {
            match env_value {
                Some(v) => level_named(v@),
                None => LogLevel::Error,
            }
        }),
        !debug_enabled ==> match env_value {
            Some(v) => {
                let n = text::ascii_lower(text::trim(v@));
                &&& n == "debug"@ ==> l == LogLevel::Debug
                &&& n == "info"@ ==> l == LogLevel::Info
                &&& (n == "warn"@ || n == "warning"@) ==> l == LogLevel::Warn
                &&& n == "error"@ ==> l == LogLevel::Error
            },
            None => l == LogLevel::Error,
        },
{
    proof {
        if let Some(v) = env_value {
            lemma_level_names(v@);
        }
    }
    if debug_enabled {
        return LogLevel::Debug;
    }
    match env_value {
        None => LogLevel::Error,
        Some(v) => {
            let t = text::trim_str(v);
            let n = text::lower_str(t.as_str());
            let s = n.as_str();
            if text::str_eq(s, "debug") {
                LogLevel::Debug
            } else if text::str_eq(s, "info") {
                LogLevel::Info
            } else if text::str_eq(s, "warn") || text::str_eq(s, "warning") {
                LogLevel::Warn
            } else {
                LogLevel::Error
            }
        },
    }
}

pub open spec fn level_text(level: LogLevel) -> Seq<char> {
    match level {
        LogLevel::Error => "ERROR"@,
        LogLevel::Warn => "WARN"@,
        LogLevel::Info => "INFO"@,
        LogLevel::Debug => "DEBUG"@,
    }
}

/// The name of a level as it appears in log lines.
pub fn format_log_level(level: LogLevel) -> (s: &'static str)
    ensures
        s@ == level_text(level),
{
    match level {
        LogLevel::Error => "ERROR",
        LogLevel::Warn => "WARN",
        LogLevel::Info => "INFO",
        LogLevel::Debug => "DEBUG",
    }
}

/// Whether a message at `level` is written when the configured level is `current`.
pub fn level_enabled(current: LogLevel, level: LogLevel) -> (b: bool)
    ensures
        b == (current.rank() >= level.rank()),
{
    current.verbosity() >= level.verbosity()
}

pub open spec fn log_line(timestamp: Seq<char>, level: LogLevel, msg: Seq<char>) -> Seq<char> {
    timestamp + " [libagent] ["@ + level_text(level) + "] "@ + msg
}

/// A log line: `<timestamp> [libagent] [<LEVEL>] <message>`.
pub fn format_log_line(timestamp: &str, level: LogLevel, msg: &str) -> (s: String)
    ensures
        s@ == log_line(timestamp@, level, msg@),
{
    let a = text::concat(timestamp, " [libagent] [");
    let b = text::concat(a.as_str(), format_log_level(level));
    let c = text::concat(b.as_str(), "] ");
    text::concat(c.as_str(), msg)
}

/// The line to write for a message at `level`, if the configured level lets it through.
pub fn log_at(current: LogLevel, timestamp: &str, level: LogLevel, msg: &str) -> (r: Option<String>)
    ensures
        current.rank() >= level.rank() ==> (r matches Some(s) && s@ == log_line(timestamp@, level, msg@)),
        current.rank() < level.rank() ==> r is None,
{
    if level_enabled(current, level) {
        Some(format_log_line(timestamp, level, msg))
    } else {
        None
    }
}

/// An error message: always written.
pub fn log_error(current: LogLevel, timestamp: &str, msg: &str) -> (r: Option<String>)
    ensures
        r matches Some(s) && s@ == log_line(timestamp@, LogLevel::Error, msg@),
{
    log_at(current, timestamp, LogLevel::Error, msg)
}

/// A warning: written unless only errors are.
pub fn log_warn(current: LogLevel, timestamp: &str, msg: &str) -> (r: Option<String>)
    ensures
        current.rank() >= 1 ==> (r matches Some(s) && s@ == log_line(timestamp@, LogLevel::Warn, msg@)),
        current.rank() < 1 ==> r is None,
{
    log_at(current, timestamp, LogLevel::Warn, msg)
}

/// An informational message: written at `Info` and `Debug`.
pub fn log_info(current: LogLevel, timestamp: &str, msg: &str) -> (r: Option<String>)
    ensures
        current.rank() >= 2 ==> (r matches Some(s) && s@ == log_line(timestamp@, LogLevel::Info, msg@)),
        current.rank() < 2 ==> r is None,
{
    log_at(current, timestamp, LogLevel::Info, msg)
}

/// A debug message: written at `Debug` only.
pub fn log_debug(current: LogLevel, timestamp: &str, msg: &str) -> (r: Option<String>)
    ensures
        current.rank() >= 3 ==> (r matches Some(s) && s@ == log_line(timestamp@, LogLevel::Debug, msg@)),
        current.rank() < 3 ==> r is None,
{
    log_at(current, timestamp, LogLevel::Debug, msg)
}

} // verus!
