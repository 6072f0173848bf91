//! Configuration of libagent: compile-time defaults, and the rules that turn
//! environment variable values (read by the caller) into settings.
use vstd::prelude::*;
use crate::text;
use crate::text::{lower_str, owned, parse_unsigned_str, str_eq, trim_str};

verus! {

broadcast use vstd::string::group_string_axioms;

/// Monitor loop interval in seconds.
pub const MONITOR_INTERVAL_SECS: u64 = 1;

/// Graceful shutdown timeout before forcing kill (seconds).
pub const GRACEFUL_SHUTDOWN_TIMEOUT_SECS: u64 = 5;

/// Initial and maximum backoff for respawn on failure (seconds).
pub const BACKOFF_INITIAL_SECS: u64 = 1;

pub const BACKOFF_MAX_SECS: u64 = 30;

/// Bounds accepted for the monitor interval.
pub const MIN_MONITOR_INTERVAL_SECS: u64 = 1;

pub const MAX_MONITOR_INTERVAL_SECS: u64 = 300;

/// Binary name of the trace agent.
pub fn trace_agent_program_default() -> (s: String)
    ensures
        s@ == "agentless-agent"@,
{
    owned("agentless-agent")
}

/// Returns initial backoff seconds for respawn.
pub fn get_backoff_initial_secs() -> (r: u64)
    ensures
        r == BACKOFF_INITIAL_SECS,
{
    BACKOFF_INITIAL_SECS
}

/// Returns maximum backoff seconds for respawn.
pub fn get_backoff_max_secs() -> (r: u64)
    ensures
        r == BACKOFF_MAX_SECS,
{
    BACKOFF_MAX_SECS
}

/// Returns graceful shutdown timeout in seconds.
pub fn get_graceful_shutdown_timeout_secs() -> (r: u64)
    ensures
        r == GRACEFUL_SHUTDOWN_TIMEOUT_SECS,
{
    GRACEFUL_SHUTDOWN_TIMEOUT_SECS
}

/// `value` when no variable overrides it: the override itself, else `default`.
pub fn value_or_default(value: Option<String>, default: &str) -> (s: String)
    ensures
        s@ == (match value {
            Some(v) => v@,
            None => default@,
        }),
{
    match value {
        Some(v) => v,
        None => owned(default),
    }
}

/// The agent program: `LIBAGENT_AGENT_PROGRAM` if set, else `datadog-agent`.
pub fn agent_program_from(env_value: Option<String>) -> (s: String)
    ensures
        s@ == (match env_value {
            Some(v) => v@,
            None => "datadog-agent"@,
        }),
{
    value_or_default(env_value, "datadog-agent")
}

/// The trace agent program: `LIBAGENT_TRACE_AGENT_PROGRAM` if set; otherwise
/// the first candidate path (library directory, then executable directory)
/// at which the binary exists; otherwise the bare name, found through PATH.
pub fn trace_agent_program_from(env_value: Option<String>, candidates: &[(String, bool)]) -> (s:
    String)
    ensures
        s@ == (match env_value {
            Some(v) => v@,
            None => match first_existing(candidates@, 0) {
                Some(i) => candidates@[i].0@,
                None => "agentless-agent"@,
            },
        }),
        env_value is None ==> forall|i: int|
            0 <= i < candidates@.len() && #[trigger] candidates@[i].1 && (forall|j: int|
                0 <= j < i ==> !candidates@[j].1) ==> s@ == candidates@[i].0@,
        env_value is None && (forall|i: int| 0 <= i < candidates@.len() ==> !candidates@[i].1)
            ==> s@ == "agentless-agent"@,
{
    proof {
        lemma_first_existing(candidates@, 0);
        assert forall|k: int|
            0 <= k < candidates@.len() && #[trigger] candidates@[k].1 && (forall|j: int|
                0 <= j < k ==> !candidates@[j].1) implies first_existing(candidates@, 0) == Some(
            k,
        ) by {
            match first_existing(candidates@, 0) {
                Some(i0) => {
                    if k < i0 {
                        assert(!candidates@[k].1);
                    } else if k > i0 {
                        assert(!candidates@[i0].1);
                    }
                },
                None => {
                    assert(!candidates@[k].1);
                },
            }
        }
    }
    match env_value {
        Some(v) => v,
        None => {
            let mut i: usize = 0;
            while i < candidates.len()
                invariant
                    i <= candidates@.len(),
                    env_value is None,
                    first_existing(candidates@, i as int) == first_existing(candidates@, 0),
                    forall|k: int|
                        0 <= k < candidates@.len() && #[trigger] candidates@[k].1 && (forall|
                            j: int,
                        | 0 <= j < k ==> !candidates@[j].1) ==> first_existing(candidates@, 0)
                            == Some(k),
                    first_existing(candidates@, 0) is None ==> forall|j: int|
                        0 <= j < candidates@.len() ==> !candidates@[j].1,
                decreases candidates@.len() - i,
            {
                if candidates[i].1 {
                    return owned(candidates[i].0.as_str());
                }
                i = i + 1;
            }
            owned("agentless-agent")
        },
    }
}

/// Index of the first candidate marked as existing, from `k` on.
pub open spec fn first_existing(c: Seq<(String, bool)>, k: int) -> Option<int>
    decreases c.len() - k,
{
    if k < 0 || k >= c.len() {
        None
    } else if c[k].1 {
        Some(k)
    } else {
        first_existing(c, k + 1)
    }
}

/// The search takes the earliest candidate that exists: the one it finds
/// exists and no candidate before it does; when it finds none, none from
/// `k` on exists.
pub proof fn lemma_first_existing(c: Seq<(String, bool)>, k: int)
    requires
        0 <= k,
    ensures
        match first_existing(c, k) {
            Some(i) => k <= i < c.len() && c[i].1 && forall|j: int| k <= j < i ==> !c[j].1,
            None => forall|j: int| k <= j < c.len() ==> !c[j].1,
        },
    decreases c.len() - k,
{
    if k < c.len() && !c[k].1 {
        lemma_first_existing(c, k + 1);
    }
}

/// Trace agent socket path: `LIBAGENT_TRACE_AGENT_UDS`, else
/// `/tmp/datadog_libagent.socket` (kept apart from a system trace agent).
pub fn trace_agent_uds_path_from(env_value: Option<String>) -> (s: String)
    ensures
        s@ == (match env_value {
            Some(v) => v@,
            None => "/tmp/datadog_libagent.socket"@,
        }),
{
    value_or_default(env_value, "/tmp/datadog_libagent.socket")
}

/// Trace agent pipe name: `LIBAGENT_TRACE_AGENT_PIPE`, else `datadog-libagent`.
pub fn trace_agent_pipe_name_from(env_value: Option<String>) -> (s: String)
    ensures
        s@ == (match env_value {
            Some(v) => v@,
            None => "datadog-libagent"@,
        }),
{
    value_or_default(env_value, "datadog-libagent")
}

/// DogStatsD socket path: `LIBAGENT_DOGSTATSD_UDS`, else `/tmp/datadog_dogstatsd.socket`.
pub fn dogstatsd_uds_path_from(env_value: Option<String>) -> (s: String)
    ensures
        s@ == (match env_value {
            Some(v) => v@,
            None => "/tmp/datadog_dogstatsd.socket"@,
        }),
{
    value_or_default(env_value, "/tmp/datadog_dogstatsd.socket")
}

/// DogStatsD pipe name: `LIBAGENT_DOGSTATSD_PIPE`, else `datadog-dogstatsd`.
pub fn dogstatsd_pipe_name_from(env_value: Option<String>) -> (s: String)
    ensures
        s@ == (match env_value {
            Some(v) => v@,
            None => "datadog-dogstatsd"@,
        }),
{
    value_or_default(env_value, "datadog-dogstatsd")
}

// ---------------------------------------------------------------------------
// Argument lists (shell-style words)
// ---------------------------------------------------------------------------

/// `shell_words::ParseError` (an unmatched quote), made known to the
/// verifier as an opaque type.
#[verifier::external_type_specification]
#[verifier::external_body]
pub struct ExShellParseError(shell_words::ParseError);

/// The words `shell_words::split` makes of a text, or `None` where it
/// reports an unmatched quote.
pub uninterp spec fn shell_words_split(s: Seq<char>) -> Option<Seq<Seq<char>>>;

pub open spec fn words_view(w: Seq<String>) -> Seq<Seq<char>> {
    w.map_values(|x: String| x@)
}

/// Splits `s` into words the way a POSIX shell does (`shell_words::split`):
/// the words are `shell_words_split(s)`; an empty text gives no words.
#[verifier::external_body]
fn shell_split(s: &str) -> (r: Result<Vec<String>, shell_words::ParseError>)
    ensures
        match r {
            Ok(words) => shell_words_split(s@) == Some(words_view(words@)),
            Err(_) => shell_words_split(s@) is None,
        },
        s@.len() == 0 ==> (r is Ok && r->Ok_0@.len() == 0),
{
    shell_words::split(s)
}

/// The arguments a split produced; when splitting failed, the default
/// argument list (which is empty).
pub fn args_or_default(parsed: Result<Vec<String>, shell_words::ParseError>) -> (args: Vec<String>)
    ensures
        match parsed {
            Ok(words) => args@ == words@,
            Err(_) => args@.len() == 0,
        },
{
    match parsed {
        Ok(words) => words,
        Err(_) => Vec::new(),
    }
}

/// Program arguments from an `*_ARGS` variable: none when unset; otherwise
/// its trimmed value split into shell words, or none when it has an
/// unmatched quote.
pub fn args_from_env(env_value: Option<&str>) -> (args: Vec<String>)
    ensures
        match env_value {
            None => args@.len() == 0,
            Some(v) => match shell_words_split(text::trim(v@)) {
                Some(ws) => words_view(args@) == ws,
                None => args@.len() == 0,
            },
        },
{
    match env_value {
        None => Vec::new(),
        Some(v) => {
            let trimmed = trim_str(v);
            args_or_default(shell_split(trimmed.as_str()))
        },
    }
}

// ---------------------------------------------------------------------------
// Numbers and switches
// ---------------------------------------------------------------------------

/// Validates and clamps a numeric configuration value within specified bounds.
/// The setting's name, `_env_var`, serves only the warning for a clamped
/// value, which `numeric_config_warning` gives.
pub fn validate_numeric_config(value: u64, min: u64, max: u64, _env_var: &str, _default: u64) -> (r:
    u64)
    ensures
        r == (if value < min {
            min
        } else if value > max {
            max
        } else {
            value
        }),
{
    if value < min {
        min
    } else if value > max {
        max
    } else {
        value
    }
}

/// The warning written when a numeric setting of `env_var` is clamped: one
/// for a value below `min`, one for a value above `max`, none otherwise.
pub open spec fn clamp_warning(value: u64, min: u64, max: u64, env_var: Seq<char>) -> Option<
    Seq<char>,
> {
    if value < min {
        Some(
            "[libagent] WARN: "@ + env_var + " value "@ + text::decimal(value as nat)
                + " is below minimum "@ + text::decimal(min as nat) + ". Using minimum value "@
                + text::decimal(min as nat),
        )
    } else if value > max {
        Some(
            "[libagent] WARN: "@ + env_var + " value "@ + text::decimal(value as nat)
                + " exceeds maximum "@ + text::decimal(max as nat) + ". Using maximum value "@
                + text::decimal(max as nat),
        )
    } else {
        None
    }
}

/// The warning `validate_numeric_config` calls for, naming `env_var`.
pub fn numeric_config_warning(value: u64, min: u64, max: u64, env_var: &str) -> (w: Option<
    String,
>)
    ensures
        match w {
            Some(t) => clamp_warning(value, min, max, env_var@) == Some(t@),
            None => clamp_warning(value, min, max, env_var@) is None,
        },
{
    if value >= min && value <= max {
        return None;
    }
    let mut t = owned("[libagent] WARN: ");
    text::append(&mut t, env_var);
    text::append(&mut t, " value ");
    let v = text::decimal_string(value);
    text::append(&mut t, v.as_str());
    if value < min {
        text::append(&mut t, " is below minimum ");
        let m = text::decimal_string(min);
        text::append(&mut t, m.as_str());
        text::append(&mut t, ". Using minimum value ");
        text::append(&mut t, m.as_str());
    } else {
        text::append(&mut t, " exceeds maximum ");
        let m = text::decimal_string(max);
        text::append(&mut t, m.as_str());
        text::append(&mut t, ". Using maximum value ");
        text::append(&mut t, m.as_str());
    }
    Some(t)
}

/// The text of the error std's `u64` parse gives for `s`.
pub uninterp spec fn u64_parse_error_text(s: Seq<char>) -> Seq<char>;

/// std's `str::parse::<u64>`: fails exactly when `s` is not an optional `+`
/// followed by decimal digits of a value that fits in `u64`, and then gives
/// the error's text, `u64_parse_error_text(s)`.
#[verifier::external_body]
fn u64_parse_error(s: &str) -> (r: Option<String>)
    ensures
        r is None <==> text::parse_unsigned(s@, 10, u64::MAX as int) is Some,
        r matches Some(t) ==> t@ == u64_parse_error_text(s@),
{
    match s.parse::<u64>() {
        Ok(_) => None,
        Err(e) => Some(e.to_string()),
    }
}

/// The warning written while reading `LIBAGENT_MONITOR_INTERVAL_SECS`: for
/// a value that is not a number (the default is used), or for a number
/// outside 1..=300 (it is clamped); none when unset or in range.
pub open spec fn monitor_interval_warning_text(env_value: Option<Seq<char>>) -> Option<Seq<char>> {
    match env_value {
        None => None,
        Some(v) => match text::parse_unsigned(v, 10, u64::MAX as int) {
            None => Some(
                "[libagent] WARN: Invalid LIBAGENT_MONITOR_INTERVAL_SECS '"@ + v + "': "@
                    + u64_parse_error_text(v) + ". Using default value 1s"@,
            ),
            Some(n) => clamp_warning(
                n as u64,
                MIN_MONITOR_INTERVAL_SECS,
                MAX_MONITOR_INTERVAL_SECS,
                "LIBAGENT_MONITOR_INTERVAL_SECS"@,
            ),
        },
    }
}

pub open spec fn opt_view(v: Option<&str>) -> Option<Seq<char>> {
    match v {
        Some(s) => Some(s@),
        None => None,
    }
}

pub fn monitor_interval_warning(env_value: Option<&str>) -> (w: Option<String>)
    ensures
        match w {
            Some(t) => monitor_interval_warning_text(opt_view(env_value)) == Some(t@),
            None => monitor_interval_warning_text(opt_view(env_value)) is None,
        },
{
    match env_value {
        None => None,
        Some(v) => match parse_unsigned_str(v, u64::MAX) {
            None => match u64_parse_error(v) {
                Some(e) => {
                    let mut t = owned("[libagent] WARN: Invalid LIBAGENT_MONITOR_INTERVAL_SECS '");
                    text::append(&mut t, v);
                    text::append(&mut t, "': ");
                    text::append(&mut t, e.as_str());
                    text::append(&mut t, ". Using default value 1s");
                    Some(t)
                },
                None => None,
            },
            Some(n) => numeric_config_warning(
                n,
                MIN_MONITOR_INTERVAL_SECS,
                MAX_MONITOR_INTERVAL_SECS,
                "LIBAGENT_MONITOR_INTERVAL_SECS",
            ),
        },
    }
}

/// Monitor interval in seconds from `LIBAGENT_MONITOR_INTERVAL_SECS`: the
/// default (1) when unset or not a number, otherwise the number clamped to
/// 1..=300.
pub fn monitor_interval_secs_from(env_value: Option<&str>) -> (r: u64)
    ensures
        r == (match env_value {
            None => MONITOR_INTERVAL_SECS as int,
            Some(v) => match text::parse_unsigned(v@, 10, u64::MAX as int) {
                None => MONITOR_INTERVAL_SECS as int,
                Some(n) => if n < MIN_MONITOR_INTERVAL_SECS {
                    MIN_MONITOR_INTERVAL_SECS as int
                } else if n > MAX_MONITOR_INTERVAL_SECS {
                    MAX_MONITOR_INTERVAL_SECS as int
                } else {
                    n
                },
            },
        }),
        MIN_MONITOR_INTERVAL_SECS <= r <= MAX_MONITOR_INTERVAL_SECS,
{
    match env_value {
        None => MONITOR_INTERVAL_SECS,
        Some(v) => match parse_unsigned_str(v, u64::MAX) {
            None => MONITOR_INTERVAL_SECS,
            Some(n) => validate_numeric_config(
                n,
                MIN_MONITOR_INTERVAL_SECS,
                MAX_MONITOR_INTERVAL_SECS,
                "LIBAGENT_MONITOR_INTERVAL_SECS",
                MONITOR_INTERVAL_SECS,
            ),
        },
    }
}

/// Whether a switch value means "on": `1`, `true`, `yes` or `on`, ignoring
/// surrounding whitespace and ASCII case.
pub open spec fn truthy(v: Seq<char>) -> bool {
    let n = text::ascii_lower(text::trim(v));
    n == "1"@ || n == "true"@ || n == "yes"@ || n == "on"@
}

pub fn is_truthy(v: &str) -> (b: bool)
    ensures
        b == truthy(v@),
{
    let t = trim_str(v);
    let n = lower_str(t.as_str());
    str_eq(n.as_str(), "1") || str_eq(n.as_str(), "true") || str_eq(n.as_str(), "yes") || str_eq(
        n.as_str(),
        "on",
    )
}

/// Whether the main agent is enabled (`LIBAGENT_AGENT_ENABLED`); off when unset.
pub fn agent_enabled_from(env_value: Option<&str>) -> (b: bool)
    ensures
        b == (match env_value {
            Some(v) => truthy(v@),
            None => false,
        }),
{
    match env_value {
        Some(v) => is_truthy(v),
        None => false,
    }
}

/// What reading an environment variable gave.
pub enum EnvValue {
    NotPresent,
    NotUnicode,
    Present(String),
}

/// Whether a remote-configuration address value switches the probe off.
pub open spec fn disables_probe(trimmed: Seq<char>) -> bool {
    let n = text::ascii_lower(trimmed);
    trimmed.len() == 0 || n == "0"@ || n == "false"@ || n == "off"@ || n == "no"@ || n
        == "disabled"@
}

/// Each of the words `0`, `false`, `off`, `no`, `disabled`, in any ASCII
/// case, and the empty text switch the remote-configuration probe off.
pub proof fn lemma_falsey_words_disable_probe(t: Seq<char>)
    requires
        ({
            let n = text::ascii_lower(t);
            n == ""@ || n == "0"@ || n == "false"@ || n == "off"@ || n == "no"@ || n
                == "disabled"@
        }),
    ensures
        disables_probe(t),
{
    reveal_strlit("");
    assert(text::ascii_lower(t).len() == t.len());
}

/// The remote configuration address used to detect an existing agent
/// (`LIBAGENT_AGENT_REMOTE_CONFIG_ADDR`): `127.0.0.1:5001` when unset; no
/// probe when the value is not Unicode, empty, or a falsey word; otherwise the
/// trimmed value.
pub fn remote_config_addr_from(env_value: EnvValue) -> (r: Option<String>)
    ensures
        match env_value {
            EnvValue::NotPresent => r matches Some(a) && a@ == "127.0.0.1:5001"@,
            EnvValue::NotUnicode => r is None,
            EnvValue::Present(v) => if disables_probe(text::trim(v@)) {
                r is None
            } else {
                r matches Some(a) && a@ == text::trim(v@)
            },
        },
        match env_value {
            EnvValue::Present(v) => ({
                let n = text::ascii_lower(text::trim(v@));
                n == ""@ || n == "0"@ || n == "false"@ || n == "off"@ || n == "no"@ || n
                    == "disabled"@
            }) ==> r is None,
            _ => true,
        },
{
    match env_value {
        EnvValue::NotPresent => Some(owned("127.0.0.1:5001")),
        EnvValue::NotUnicode => None,
        EnvValue::Present(v) => {
            proof {
                if ({
                    let n = text::ascii_lower(text::trim(v@));
                    n == ""@ || n == "0"@ || n == "false"@ || n == "off"@ || n == "no"@ || n
                        == "disabled"@
                }) {
                    lemma_falsey_words_disable_probe(text::trim(v@));
                }
            }
            let trimmed = trim_str(v.as_str());
            let n = lower_str(trimmed.as_str());
            let t = trimmed.as_str();
            if t.is_empty() || str_eq(n.as_str(), "0") || str_eq(n.as_str(), "false") || str_eq(
                n.as_str(),
                "off",
            ) || str_eq(n.as_str(), "no") || str_eq(n.as_str(), "disabled") {
                None
            } else {
                Some(trimmed)
            }
        },
    }
}

} // verus!
