//! Counters kept for observability: process spawns and failures, proxied
//! requests by method, responses by status class, DogStatsD sends.
//!
//! Counters wrap around on overflow, as atomic `fetch_add` does.
use vstd::prelude::*;
use crate::text;

verus! {

broadcast use vstd::string::group_string_axioms;

/// HTTP methods the proxy counts separately.
#[derive(Clone, Copy, PartialEq, Eq, Structural, Debug)]
pub enum ProxyMethod {
    Get,
    Post,
    Delete,
    Patch,
    Put,
    Head,
    Options,
    Other,
}

/// The upper-cased form of a text, as std's `str::to_uppercase` produces it
/// (full Unicode case mapping).
pub uninterp spec fn unicode_uppercase(s: Seq<char>) -> Seq<char>;

/// std's `str::to_uppercase`: the result is `unicode_uppercase` of the text.
#[verifier::external_body]
fn to_uppercase(s: &str) -> (r: String)
    ensures
        r@ == unicode_uppercase(s@),
{
    s.to_uppercase()
}

pub open spec fn method_of(upper: Seq<char>) -> ProxyMethod {
    if upper == "GET"@ {
        ProxyMethod::Get
    } else if upper == "POST"@ {
        ProxyMethod::Post
    } else if upper == "DELETE"@ {
        ProxyMethod::Delete
    } else if upper == "PATCH"@ {
        ProxyMethod::Patch
    } else if upper == "PUT"@ {
        ProxyMethod::Put
    } else if upper == "HEAD"@ {
        ProxyMethod::Head
    } else if upper == "OPTIONS"@ {
        ProxyMethod::Options
    } else {
        ProxyMethod::Other
    }
}

/// The counter an upper-cased method name falls under.
pub fn method_kind(upper: &str) -> (m: ProxyMethod)
    ensures
        m == method_of(upper@),
{
    if text::str_eq(upper, "GET") {
        ProxyMethod::Get
    } else if text::str_eq(upper, "POST") {
        ProxyMethod::Post
    } else if text::str_eq(upper, "DELETE") {
        ProxyMethod::Delete
    } else if text::str_eq(upper, "PATCH") {
        ProxyMethod::Patch
    } else if text::str_eq(upper, "PUT") {
        ProxyMethod::Put
    } else if text::str_eq(upper, "HEAD") {
        ProxyMethod::Head
    } else if text::str_eq(upper, "OPTIONS") {
        ProxyMethod::Options
    } else {
        ProxyMethod::Other
    }
}

/// Status classes the proxy counts: 2xx, 3xx, 4xx, 5xx; other codes are not counted.
pub open spec fn status_class(status: u16) -> Option<u16> {
    if 200 <= status <= 299 {
        Some(2)
    } else if 300 <= status <= 399 {
        Some(3)
    } else if 400 <= status <= 499 {
        Some(4)
    } else if 500 <= status <= 599 {
        Some(5)
    } else {
        None
    }
}

pub open spec fn inc(x: u64) -> u64 {
    if x == u64::MAX {
        0
    } else {
        (x + 1) as u64
    }
}

fn bump(x: u64) -> (r: u64)
    ensures
        r == inc(x),
{
    x.wrapping_add(1)
}

/// Internal metrics for observability.
#[derive(Clone, Copy, PartialEq, Eq, Structural, Debug)]
pub struct Metrics {
    /// Total number of agent process spawns (including restarts)
    pub agent_spawns: u64,
    /// Total number of trace-agent process spawns (including restarts)
    pub trace_agent_spawns: u64,
    /// Total number of agent process failures
    pub agent_failures: u64,
    /// Total number of trace-agent process failures
    pub trace_agent_failures: u64,
    /// HTTP proxy request metrics by method
    pub proxy_get_requests: u64,
    pub proxy_post_requests: u64,
    pub proxy_delete_requests: u64,
    pub proxy_patch_requests: u64,
    pub proxy_put_requests: u64,
    pub proxy_head_requests: u64,
    pub proxy_options_requests: u64,
    pub proxy_other_requests: u64,
    /// HTTP response status code metrics
    pub proxy_2xx_responses: u64,
    pub proxy_3xx_responses: u64,
    pub proxy_4xx_responses: u64,
    pub proxy_5xx_responses: u64,
    /// DogStatsD sends
    pub dogstatsd_requests: u64,
    pub dogstatsd_successes: u64,
    pub dogstatsd_errors: u64,
    /// Number of proxy responses whose response time was recorded
    pub response_time_samples: u64,
}

impl Metrics {
    /// The request counter for `m`.
    pub open spec fn method_count(&self, m: ProxyMethod) -> u64 {
        match m {
            ProxyMethod::Get => self.proxy_get_requests,
            ProxyMethod::Post => self.proxy_post_requests,
            ProxyMethod::Delete => self.proxy_delete_requests,
            ProxyMethod::Patch => self.proxy_patch_requests,
            ProxyMethod::Put => self.proxy_put_requests,
            ProxyMethod::Head => self.proxy_head_requests,
            ProxyMethod::Options => self.proxy_options_requests,
            ProxyMethod::Other => self.proxy_other_requests,
        }
    }

    /// The response counter for status class `c` (2 to 5).
    pub open spec fn class_count(&self, c: u16) -> u64 {
        if c == 2 {
            self.proxy_2xx_responses
        } else if c == 3 {
            self.proxy_3xx_responses
        } else if c == 4 {
            self.proxy_4xx_responses
        } else {
            self.proxy_5xx_responses
        }
    }

    /// `self` with only the request counter of `m` changed, to `v`.
    pub open spec fn with_method_count(self, m: ProxyMethod, v: u64) -> Metrics {
        match m {
            ProxyMethod::Get => Metrics { proxy_get_requests: v, ..self },
            ProxyMethod::Post => Metrics { proxy_post_requests: v, ..self },
            ProxyMethod::Delete => Metrics { proxy_delete_requests: v, ..self },
            ProxyMethod::Patch => Metrics { proxy_patch_requests: v, ..self },
            ProxyMethod::Put => Metrics { proxy_put_requests: v, ..self },
            ProxyMethod::Head => Metrics { proxy_head_requests: v, ..self },
            ProxyMethod::Options => Metrics { proxy_options_requests: v, ..self },
            ProxyMethod::Other => Metrics { proxy_other_requests: v, ..self },
        }
    }

    /// `self` with only the response counter of class `c` changed, to `v`.
    pub open spec fn with_class_count(self, c: u16, v: u64) -> Metrics {
        if c == 2 {
            Metrics { proxy_2xx_responses: v, ..self }
        } else if c == 3 {
            Metrics { proxy_3xx_responses: v, ..self }
        } else if c == 4 {
            Metrics { proxy_4xx_responses: v, ..self }
        } else {
            Metrics { proxy_5xx_responses: v, ..self }
        }
    }

    pub open spec fn zero() -> Metrics {
        Metrics {
            agent_spawns: 0,
            trace_agent_spawns: 0,
            agent_failures: 0,
            trace_agent_failures: 0,
            proxy_get_requests: 0,
            proxy_post_requests: 0,
            proxy_delete_requests: 0,
            proxy_patch_requests: 0,
            proxy_put_requests: 0,
            proxy_head_requests: 0,
            proxy_options_requests: 0,
            proxy_other_requests: 0,
            proxy_2xx_responses: 0,
            proxy_3xx_responses: 0,
            proxy_4xx_responses: 0,
            proxy_5xx_responses: 0,
            dogstatsd_requests: 0,
            dogstatsd_successes: 0,
            dogstatsd_errors: 0,
            response_time_samples: 0,
        }
    }

    /// Creates a new metrics instance with zeroed counters.
    pub fn new() -> (m: Metrics)
        ensures
            m == Metrics::zero(),
    {
        Metrics {
            agent_spawns: 0,
            trace_agent_spawns: 0,
            agent_failures: 0,
            trace_agent_failures: 0,
            proxy_get_requests: 0,
            proxy_post_requests: 0,
            proxy_delete_requests: 0,
            proxy_patch_requests: 0,
            proxy_put_requests: 0,
            proxy_head_requests: 0,
            proxy_options_requests: 0,
            proxy_other_requests: 0,
            proxy_2xx_responses: 0,
            proxy_3xx_responses: 0,
            proxy_4xx_responses: 0,
            proxy_5xx_responses: 0,
            dogstatsd_requests: 0,
            dogstatsd_successes: 0,
            dogstatsd_errors: 0,
            response_time_samples: 0,
        }
    }

    /// Records that the agent process was spawned.
    pub fn record_agent_spawn(&mut self)
        ensures
            *final(self) == (Metrics { agent_spawns: inc(old(self).agent_spawns), ..*old(self) }),
    {
        self.agent_spawns = bump(self.agent_spawns);
    }

    /// Records that the trace-agent process was spawned.
    pub fn record_trace_agent_spawn(&mut self)
        ensures
            *final(self) == (Metrics {
                trace_agent_spawns: inc(old(self).trace_agent_spawns),
                ..*old(self)
            }),
    {
        self.trace_agent_spawns = bump(self.trace_agent_spawns);
    }

    /// Records that the agent process failed.
    pub fn record_agent_failure(&mut self)
        ensures
            *final(self) == (Metrics { agent_failures: inc(old(self).agent_failures), ..*old(self) }),
    {
        self.agent_failures = bump(self.agent_failures);
    }

    /// Records that the trace-agent process failed.
    pub fn record_trace_agent_failure(&mut self)
        ensures
            *final(self) == (Metrics {
                trace_agent_failures: inc(old(self).trace_agent_failures),
                ..*old(self)
            }),
    {
        self.trace_agent_failures = bump(self.trace_agent_failures);
    }

    /// The counters after a spawn of the process named `name` was recorded.
    pub open spec fn after_spawn(self, name: Seq<char>) -> Metrics {
        if name == "agent"@ {
            Metrics { agent_spawns: inc(self.agent_spawns), ..self }
        } else if name == "trace-agent"@ {
            Metrics { trace_agent_spawns: inc(self.trace_agent_spawns), ..self }
        } else {
            self
        }
    }

    /// The counters after a failure of the process named `name` was recorded.
    pub open spec fn after_failure(self, name: Seq<char>) -> Metrics {
        if name == "agent"@ {
            Metrics { agent_failures: inc(self.agent_failures), ..self }
        } else if name == "trace-agent"@ {
            Metrics { trace_agent_failures: inc(self.trace_agent_failures), ..self }
        } else {
            self
        }
    }

    /// Records a spawn of the process named `name` (`agent` or `trace-agent`;
    /// other names are not counted).
    pub fn record_process_spawn(&mut self, name: &str)
        ensures
            *final(self) == old(self).after_spawn(name@),
    {
        if text::str_eq(name, "agent") {
            self.record_agent_spawn();
        } else if text::str_eq(name, "trace-agent") {
            self.record_trace_agent_spawn();
        }
    }

    /// Records a failure of the process named `name` (`agent` or
    /// `trace-agent`; other names are not counted).
    pub fn record_process_failure(&mut self, name: &str)
        ensures
            *final(self) == old(self).after_failure(name@),
    {
        if text::str_eq(name, "agent") {
            self.record_agent_failure();
        } else if text::str_eq(name, "trace-agent") {
            self.record_trace_agent_failure();
        }
    }

    /// Counts one request under the counter of `m`.
    pub fn record_method(&mut self, m: ProxyMethod)
        ensures
            *final(self) == old(self).with_method_count(m, inc(old(self).method_count(m))),
    {
        match m {
            ProxyMethod::Get => self.proxy_get_requests = bump(self.proxy_get_requests),
            ProxyMethod::Post => self.proxy_post_requests = bump(self.proxy_post_requests),
            ProxyMethod::Delete => self.proxy_delete_requests = bump(self.proxy_delete_requests),
            ProxyMethod::Patch => self.proxy_patch_requests = bump(self.proxy_patch_requests),
            ProxyMethod::Put => self.proxy_put_requests = bump(self.proxy_put_requests),
            ProxyMethod::Head => self.proxy_head_requests = bump(self.proxy_head_requests),
            ProxyMethod::Options => self.proxy_options_requests = bump(self.proxy_options_requests),
            ProxyMethod::Other => self.proxy_other_requests = bump(self.proxy_other_requests),
        }
    }

    /// Records an HTTP proxy request by method (compared upper-cased).
    pub fn record_proxy_request(&mut self, method: &str)
        ensures
            *final(self) == old(self).with_method_count(
                method_of(unicode_uppercase(method@)),
                inc(old(self).method_count(method_of(unicode_uppercase(method@)))),
            ),
    {
        let upper = to_uppercase(method);
        let m = method_kind(upper.as_str());
        self.record_method(m);
    }

    /// Records the status class of an HTTP proxy response.
    pub fn record_proxy_response_status(&mut self, status_code: u16)
        ensures
            *final(self) == (match status_class(status_code) {
                Some(c) => old(self).with_class_count(c, inc(old(self).class_count(c))),
                None => *old(self),
            }),
    {
        if 200 <= status_code && status_code <= 299 {
            self.proxy_2xx_responses = bump(self.proxy_2xx_responses);
        } else if 300 <= status_code && status_code <= 399 {
            self.proxy_3xx_responses = bump(self.proxy_3xx_responses);
        } else if 400 <= status_code && status_code <= 499 {
            self.proxy_4xx_responses = bump(self.proxy_4xx_responses);
        } else if 500 <= status_code && status_code <= 599 {
            self.proxy_5xx_responses = bump(self.proxy_5xx_responses);
        }
    }

    /// Records a proxy response: its status class is counted (codes outside
    /// 200..=599 are not), and one more response-time sample is counted
    /// whatever the code.
    pub fn record_proxy_response(&mut self, status_code: u16)
        ensures
            *final(self) == (match status_class(status_code) {
                Some(c) => Metrics {
                    response_time_samples: inc(old(self).response_time_samples),
                    ..old(self).with_class_count(c, inc(old(self).class_count(c)))
                },
                None => Metrics {
                    response_time_samples: inc(old(self).response_time_samples),
                    ..*old(self)
                },
            }),
    {
        self.record_proxy_response_status(status_code);
        self.response_time_samples = bump(self.response_time_samples);
    }

    /// Gets the number of recorded response-time samples.
    pub fn response_time_sample_count(&self) -> (r: u64)
        ensures
            r == self.response_time_samples,
    {
        self.response_time_samples
    }

    /// Records a DogStatsD send attempt.
    pub fn record_dogstatsd_request(&mut self)
        ensures
            *final(self) == (Metrics {
                dogstatsd_requests: inc(old(self).dogstatsd_requests),
                ..*old(self)
            }),
    {
        self.dogstatsd_requests = bump(self.dogstatsd_requests);
    }

    /// Records a DogStatsD send that succeeded.
    pub fn record_dogstatsd_success(&mut self)
        ensures
            *final(self) == (Metrics {
                dogstatsd_successes: inc(old(self).dogstatsd_successes),
                ..*old(self)
            }),
    {
        self.dogstatsd_successes = bump(self.dogstatsd_successes);
    }

    /// Records a DogStatsD send that failed.
    pub fn record_dogstatsd_error(&mut self)
        ensures
            *final(self) == (Metrics { dogstatsd_errors: inc(old(self).dogstatsd_errors), ..*old(self) }),
    {
        self.dogstatsd_errors = bump(self.dogstatsd_errors);
    }

    /// Gets the total number of agent spawns.
    pub fn agent_spawns(&self) -> (r: u64)
        ensures
            r == self.agent_spawns,
    {
        self.agent_spawns
    }

    /// Gets the total number of trace-agent spawns.
    pub fn trace_agent_spawns(&self) -> (r: u64)
        ensures
            r == self.trace_agent_spawns,
    {
        self.trace_agent_spawns
    }

    /// Gets the total number of agent failures.
    pub fn agent_failures(&self) -> (r: u64)
        ensures
            r == self.agent_failures,
    {
        self.agent_failures
    }

    /// Gets the total number of trace-agent failures.
    pub fn trace_agent_failures(&self) -> (r: u64)
        ensures
            r == self.trace_agent_failures,
    {
        self.trace_agent_failures
    }

    /// Gets the number of proxy requests by HTTP method
    pub fn proxy_get_requests(&self) -> (r: u64)
        ensures
            r == self.proxy_get_requests,
    {
        self.proxy_get_requests
    }

    pub fn proxy_post_requests(&self) -> (r: u64)
        ensures
            r == self.proxy_post_requests,
    {
        self.proxy_post_requests
    }

    pub fn proxy_delete_requests(&self) -> (r: u64)
        ensures
            r == self.proxy_delete_requests,
    {
        self.proxy_delete_requests
    }

    pub fn proxy_patch_requests(&self) -> (r: u64)
        ensures
            r == self.proxy_patch_requests,
    {
        self.proxy_patch_requests
    }

    pub fn proxy_put_requests(&self) -> (r: u64)
        ensures
            r == self.proxy_put_requests,
    {
        self.proxy_put_requests
    }

    pub fn proxy_head_requests(&self) -> (r: u64)
        ensures
            r == self.proxy_head_requests,
    {
        self.proxy_head_requests
    }

    pub fn proxy_options_requests(&self) -> (r: u64)
        ensures
            r == self.proxy_options_requests,
    {
        self.proxy_options_requests
    }

    pub fn proxy_other_requests(&self) -> (r: u64)
        ensures
            r == self.proxy_other_requests,
    {
        self.proxy_other_requests
    }

    /// Gets the number of proxy responses by status code range
    pub fn proxy_2xx_responses(&self) -> (r: u64)
        ensures
            r == self.proxy_2xx_responses,
    {
        self.proxy_2xx_responses
    }

    pub fn proxy_3xx_responses(&self) -> (r: u64)
        ensures
            r == self.proxy_3xx_responses,
    {
        self.proxy_3xx_responses
    }

    pub fn proxy_4xx_responses(&self) -> (r: u64)
        ensures
            r == self.proxy_4xx_responses,
    {
        self.proxy_4xx_responses
    }

    pub fn proxy_5xx_responses(&self) -> (r: u64)
        ensures
            r == self.proxy_5xx_responses,
    {
        self.proxy_5xx_responses
    }

    pub fn dogstatsd_requests(&self) -> (r: u64)
        ensures
            r == self.dogstatsd_requests,
    {
        self.dogstatsd_requests
    }

    pub fn dogstatsd_successes(&self) -> (r: u64)
        ensures
            r == self.dogstatsd_successes,
    {
        self.dogstatsd_successes
    }

    pub fn dogstatsd_errors(&self) -> (r: u64)
        ensures
            r == self.dogstatsd_errors,
    {
        self.dogstatsd_errors
    }
}

/// Whether the text `s` holds `line` somewhere, as a contiguous run.
#[verifier::opaque]
pub open spec fn has_line(s: Seq<char>, line: Seq<char>) -> bool {
    text::contains_seq(s, line)
}

/// A summary line: the label, the count in decimal, a line feed.
pub open spec fn count_line(label: Seq<char>, n: u64) -> Seq<char> {
    label + text::decimal(n as nat) + "\n"@
}

/// The process counters of the summary, one line each.
pub open spec fn process_lines(m: Metrics) -> Seq<char> {
    count_line("  agent_spawns: "@, m.agent_spawns) + count_line(
        "  trace_agent_spawns: "@,
        m.trace_agent_spawns,
    ) + count_line("  agent_failures: "@, m.agent_failures) + count_line(
        "  trace_agent_failures: "@,
        m.trace_agent_failures,
    )
}

/// The request counters by method, one line each.
pub open spec fn method_lines(m: Metrics) -> Seq<char> {
    count_line("    GET: "@, m.proxy_get_requests) + count_line("    POST: "@, m.proxy_post_requests)
        + count_line("    PUT: "@, m.proxy_put_requests) + count_line(
        "    DELETE: "@,
        m.proxy_delete_requests,
    ) + count_line("    PATCH: "@, m.proxy_patch_requests) + count_line(
        "    HEAD: "@,
        m.proxy_head_requests,
    ) + count_line("    OPTIONS: "@, m.proxy_options_requests) + count_line(
        "    OTHER: "@,
        m.proxy_other_requests,
    )
}

/// The response counters by status class, one line each.
pub open spec fn class_lines(m: Metrics) -> Seq<char> {
    count_line("    2xx: "@, m.proxy_2xx_responses) + count_line("    3xx: "@, m.proxy_3xx_responses)
        + count_line("    4xx: "@, m.proxy_4xx_responses) + count_line(
        "    5xx: "@,
        m.proxy_5xx_responses,
    )
}

/// The summary printed when the library stops with debug logging on.
/// `uptime_line` and `response_times` are the sections computed from the
/// clock and the response-time averages.
pub open spec fn summary_text(m: Metrics, uptime_line: Seq<char>, response_times: Seq<char>) -> Seq<char> {
    "libagent metrics:\n"@ + process_lines(m) + uptime_line + "\n  HTTP Proxy Requests:\n"@
        + method_lines(m) + "\n  HTTP Proxy Responses:\n"@ + class_lines(m)
        + "\n  Response Time Moving Averages (ms):\n"@ + response_times
}

fn append_count(s: &mut String, label: &str, n: u64)
    ensures
        final(s)@ == old(s)@ + count_line(label@, n),
        has_line(final(s)@, count_line(label@, n)),
        forall|p: Seq<char>| #[trigger] has_line(old(s)@, p) ==> has_line(final(s)@, p),
{
    let ghost before = s@;
    text::append(s, label);
    let d = text::decimal_string(n);
    text::append(s, d.as_str());
    text::append(s, "\n");
    proof {
        reveal(has_line);
        assert(s@ =~= before + count_line(label@, n));
        text::lemma_contains_appended(before, count_line(label@, n));
        assert forall|p: Seq<char>| #[trigger] has_line(before, p) implies has_line(s@, p) by {
            text::lemma_contains_extend(before, count_line(label@, n), p);
        }
    }
}

/// Appends `t`, keeping every run already in `s` and gaining every run of `t`.
fn append_keeping(s: &mut String, t: &str)
    ensures
        final(s)@ == old(s)@ + t@,
        forall|p: Seq<char>| #[trigger] has_line(old(s)@, p) ==> has_line(final(s)@, p),
        forall|p: Seq<char>| #[trigger] has_line(t@, p) ==> has_line(final(s)@, p),
{
    let ghost before = s@;
    text::append(s, t);
    proof {
        reveal(has_line);
        assert forall|p: Seq<char>| #[trigger] has_line(before, p) implies has_line(s@, p) by {
            text::lemma_contains_extend(before, t@, p);
        }
        assert forall|p: Seq<char>| #[trigger] has_line(t@, p) implies has_line(s@, p) by {
            text::lemma_contains_prepend(before, t@, p);
        }
    }
}

fn process_section(m: &Metrics) -> (s: String)
    ensures
        s@ == process_lines(*m),
        has_line(s@, count_line("  agent_spawns: "@, m.agent_spawns)),
        has_line(s@, count_line("  trace_agent_spawns: "@, m.trace_agent_spawns)),
        has_line(s@, count_line("  agent_failures: "@, m.agent_failures)),
        has_line(s@, count_line("  trace_agent_failures: "@, m.trace_agent_failures)),
{
    let mut s = String::new();
    proof {
        assert(s@ =~= Seq::<char>::empty());
    }
    append_count(&mut s, "  agent_spawns: ", m.agent_spawns);
    proof {
        assert(s@ =~= count_line("  agent_spawns: "@, m.agent_spawns));
    }
    append_count(&mut s, "  trace_agent_spawns: ", m.trace_agent_spawns);
    append_count(&mut s, "  agent_failures: ", m.agent_failures);
    append_count(&mut s, "  trace_agent_failures: ", m.trace_agent_failures);
    s
}

fn method_section(m: &Metrics) -> (s: String)
    ensures
        s@ == method_lines(*m),
        has_line(s@, count_line("    GET: "@, m.proxy_get_requests)),
        has_line(s@, count_line("    POST: "@, m.proxy_post_requests)),
        has_line(s@, count_line("    PUT: "@, m.proxy_put_requests)),
        has_line(s@, count_line("    DELETE: "@, m.proxy_delete_requests)),
        has_line(s@, count_line("    PATCH: "@, m.proxy_patch_requests)),
        has_line(s@, count_line("    HEAD: "@, m.proxy_head_requests)),
        has_line(s@, count_line("    OPTIONS: "@, m.proxy_options_requests)),
        has_line(s@, count_line("    OTHER: "@, m.proxy_other_requests)),
{
    let mut s = String::new();
    append_count(&mut s, "    GET: ", m.proxy_get_requests);
    proof {
        assert(s@ =~= count_line("    GET: "@, m.proxy_get_requests));
    }
    append_count(&mut s, "    POST: ", m.proxy_post_requests);
    append_count(&mut s, "    PUT: ", m.proxy_put_requests);
    append_count(&mut s, "    DELETE: ", m.proxy_delete_requests);
    append_count(&mut s, "    PATCH: ", m.proxy_patch_requests);
    append_count(&mut s, "    HEAD: ", m.proxy_head_requests);
    append_count(&mut s, "    OPTIONS: ", m.proxy_options_requests);
    append_count(&mut s, "    OTHER: ", m.proxy_other_requests);
    s
}

fn class_section(m: &Metrics) -> (s: String)
    ensures
        s@ == class_lines(*m),
        has_line(s@, count_line("    2xx: "@, m.proxy_2xx_responses)),
        has_line(s@, count_line("    3xx: "@, m.proxy_3xx_responses)),
        has_line(s@, count_line("    4xx: "@, m.proxy_4xx_responses)),
        has_line(s@, count_line("    5xx: "@, m.proxy_5xx_responses)),
{
    let mut s = String::new();
    append_count(&mut s, "    2xx: ", m.proxy_2xx_responses);
    proof {
        assert(s@ =~= count_line("    2xx: "@, m.proxy_2xx_responses));
    }
    append_count(&mut s, "    3xx: ", m.proxy_3xx_responses);
    append_count(&mut s, "    4xx: ", m.proxy_4xx_responses);
    append_count(&mut s, "    5xx: ", m.proxy_5xx_responses);
    s
}

impl Metrics {
    /// The summary of all counters, with the uptime line and the
    /// response-time section supplied by the caller. Each counter appears
    /// on the line that bears its name.
    pub fn format_metrics(&self, uptime_line: &str, response_times: &str) -> (s: String)
        ensures
            s@ == summary_text(*self, uptime_line@, response_times@),
            has_line(s@, count_line("  agent_spawns: "@, self.agent_spawns)),
            has_line(s@, count_line("  trace_agent_spawns: "@, self.trace_agent_spawns)),
            has_line(s@, count_line("  agent_failures: "@, self.agent_failures)),
            has_line(s@, count_line("  trace_agent_failures: "@, self.trace_agent_failures)),
            has_line(s@, count_line("    GET: "@, self.proxy_get_requests)),
            has_line(s@, count_line("    POST: "@, self.proxy_post_requests)),
            has_line(s@, count_line("    PUT: "@, self.proxy_put_requests)),
            has_line(s@, count_line("    DELETE: "@, self.proxy_delete_requests)),
            has_line(s@, count_line("    PATCH: "@, self.proxy_patch_requests)),
            has_line(s@, count_line("    HEAD: "@, self.proxy_head_requests)),
            has_line(s@, count_line("    OPTIONS: "@, self.proxy_options_requests)),
            has_line(s@, count_line("    OTHER: "@, self.proxy_other_requests)),
            has_line(s@, count_line("    2xx: "@, self.proxy_2xx_responses)),
            has_line(s@, count_line("    3xx: "@, self.proxy_3xx_responses)),
            has_line(s@, count_line("    4xx: "@, self.proxy_4xx_responses)),
            has_line(s@, count_line("    5xx: "@, self.proxy_5xx_responses)),
    {
        let mut s = String::new();
        text::append(&mut s, "libagent metrics:\n");
        let p = process_section(self);
        append_keeping(&mut s, p.as_str());
        append_keeping(&mut s, uptime_line);
        append_keeping(&mut s, "\n  HTTP Proxy Requests:\n");
        let ms = method_section(self);
        append_keeping(&mut s, ms.as_str());
        append_keeping(&mut s, "\n  HTTP Proxy Responses:\n");
        let cs = class_section(self);
        append_keeping(&mut s, cs.as_str());
        append_keeping(&mut s, "\n  Response Time Moving Averages (ms):\n");
        append_keeping(&mut s, response_times);
        s
    }
}

/// Recording a request changes exactly one counter, the one for its method,
/// and raises it by one (wrapping at `u64::MAX`); every other method counter
/// keeps its value.
pub proof fn lemma_request_counted_once(m: Metrics, method: ProxyMethod, other: ProxyMethod)
    ensures
        m.with_method_count(method, inc(m.method_count(method))).method_count(method) == inc(
            m.method_count(method),
        ),
        other != method ==> m.with_method_count(method, inc(m.method_count(method))).method_count(
            other,
        ) == m.method_count(other),
{
}

} // verus!
