use libagent::metrics::{method_kind, Metrics, ProxyMethod};

const UPTIME: &str = "  uptime_seconds: not_initialized\n";
const NO_TIMES: &str = "    no_response_times_recorded\n";

#[test]
fn test_metrics_recording() {
    let mut metrics = Metrics::new();

    assert_eq!(metrics.agent_spawns(), 0);
    assert_eq!(metrics.trace_agent_spawns(), 0);
    assert_eq!(metrics.agent_failures(), 0);
    assert_eq!(metrics.trace_agent_failures(), 0);

    metrics.record_agent_spawn();
    metrics.record_agent_spawn();
    metrics.record_trace_agent_spawn();

    assert_eq!(metrics.agent_spawns(), 2);
    assert_eq!(metrics.trace_agent_spawns(), 1);

    metrics.record_agent_failure();
    metrics.record_trace_agent_failure();
    metrics.record_trace_agent_failure();

    assert_eq!(metrics.agent_failures(), 1);
    assert_eq!(metrics.trace_agent_failures(), 2);

    metrics.record_proxy_request("GET");
    metrics.record_proxy_request("POST");
    metrics.record_proxy_request("GET");
    metrics.record_proxy_request("UNKNOWN");

    metrics.record_proxy_response(200);
    metrics.record_proxy_response(404);
    metrics.record_proxy_response(500);
    metrics.record_proxy_response(201);

    assert_eq!(metrics.proxy_get_requests(), 2);
    assert_eq!(metrics.proxy_post_requests(), 1);
    assert_eq!(metrics.proxy_other_requests(), 1);

    assert_eq!(metrics.proxy_2xx_responses(), 2);
    assert_eq!(metrics.proxy_4xx_responses(), 1);
    assert_eq!(metrics.proxy_5xx_responses(), 1);
    assert_eq!(metrics.response_time_sample_count(), 4);

    let formatted = metrics.format_metrics("  uptime_seconds: 0.00\n", NO_TIMES);
    assert!(formatted.contains("agent_spawns: 2"));
    assert!(formatted.contains("trace_agent_spawns: 1"));
    assert!(formatted.contains("agent_failures: 1"));
    assert!(formatted.contains("trace_agent_failures: 2"));
    assert!(formatted.contains("uptime_seconds"));
    assert!(formatted.contains("GET: 2"));
    assert!(formatted.contains("POST: 1"));
    assert!(formatted.contains("2xx: 2"));
    assert!(formatted.contains("4xx: 1"));
    assert!(formatted.contains("5xx: 1"));
    assert!(formatted.contains("Response Time Moving Averages"));
}

#[test]
fn test_metrics_all_http_methods() {
    let mut metrics = Metrics::new();

    metrics.record_proxy_request("GET");
    metrics.record_proxy_request("POST");
    metrics.record_proxy_request("PUT");
    metrics.record_proxy_request("DELETE");
    metrics.record_proxy_request("PATCH");
    metrics.record_proxy_request("HEAD");
    metrics.record_proxy_request("OPTIONS");
    metrics.record_proxy_request("CUSTOM");

    assert_eq!(metrics.proxy_get_requests(), 1);
    assert_eq!(metrics.proxy_post_requests(), 1);
    assert_eq!(metrics.proxy_put_requests(), 1);
    assert_eq!(metrics.proxy_delete_requests(), 1);
    assert_eq!(metrics.proxy_patch_requests(), 1);
    assert_eq!(metrics.proxy_head_requests(), 1);
    assert_eq!(metrics.proxy_options_requests(), 1);
    assert_eq!(metrics.proxy_other_requests(), 1);
}

#[test]
fn test_metrics_all_status_code_ranges() {
    let mut metrics = Metrics::new();

    metrics.record_proxy_response(200);
    metrics.record_proxy_response(301);
    metrics.record_proxy_response(404);
    metrics.record_proxy_response(500);
    metrics.record_proxy_response(100);

    assert_eq!(metrics.proxy_2xx_responses(), 1);
    assert_eq!(metrics.proxy_3xx_responses(), 1);
    assert_eq!(metrics.proxy_4xx_responses(), 1);
    assert_eq!(metrics.proxy_5xx_responses(), 1);
    assert_eq!(metrics.response_time_sample_count(), 5);
}

#[test]
fn test_metrics_format_metrics_comprehensive() {
    let mut metrics = Metrics::new();

    metrics.record_agent_spawn();
    metrics.record_trace_agent_spawn();
    metrics.record_agent_failure();
    metrics.record_proxy_request("GET");
    metrics.record_proxy_request("POST");
    metrics.record_proxy_response(200);
    metrics.record_proxy_response(404);

    let formatted = metrics.format_metrics("  uptime_seconds: 0.01\n", NO_TIMES);

    assert!(formatted.contains("libagent metrics:"));
    assert!(formatted.contains("agent_spawns: 1"));
    assert!(formatted.contains("trace_agent_spawns: 1"));
    assert!(formatted.contains("agent_failures: 1"));
    assert!(formatted.contains("GET: 1"));
    assert!(formatted.contains("POST: 1"));
    assert!(formatted.contains("2xx: 1"));
    assert!(formatted.contains("4xx: 1"));
    assert!(formatted.contains("uptime_seconds"));
}

#[test]
fn test_metrics_zero_values() {
    let metrics = Metrics::new();

    assert_eq!(metrics.agent_spawns(), 0);
    assert_eq!(metrics.trace_agent_spawns(), 0);
    assert_eq!(metrics.agent_failures(), 0);
    assert_eq!(metrics.trace_agent_failures(), 0);
    assert_eq!(metrics.proxy_get_requests(), 0);
    assert_eq!(metrics.proxy_post_requests(), 0);
    assert_eq!(metrics.proxy_2xx_responses(), 0);
    assert_eq!(metrics.proxy_4xx_responses(), 0);
    assert_eq!(metrics.response_time_sample_count(), 0);
}

#[test]
fn summary_exact_text_of_fresh_counters() {
    let metrics = Metrics::new();
    let expected = "libagent metrics:\n  agent_spawns: 0\n  trace_agent_spawns: 0\n  agent_failures: 0\n  trace_agent_failures: 0\n  uptime_seconds: not_initialized\n\n  HTTP Proxy Requests:\n    GET: 0\n    POST: 0\n    PUT: 0\n    DELETE: 0\n    PATCH: 0\n    HEAD: 0\n    OPTIONS: 0\n    OTHER: 0\n\n  HTTP Proxy Responses:\n    2xx: 0\n    3xx: 0\n    4xx: 0\n    5xx: 0\n\n  Response Time Moving Averages (ms):\n    no_response_times_recorded\n";
    assert_eq!(metrics.format_metrics(UPTIME, NO_TIMES), expected);
}

#[test]
fn methods_are_case_insensitive() {
    let mut metrics = Metrics::new();
    metrics.record_proxy_request("get");
    metrics.record_proxy_request("Post");
    metrics.record_proxy_request("options");
    assert_eq!(metrics.proxy_get_requests(), 1);
    assert_eq!(metrics.proxy_post_requests(), 1);
    assert_eq!(metrics.proxy_options_requests(), 1);
    assert_eq!(method_kind("PATCH"), ProxyMethod::Patch);
    assert_eq!(method_kind("TRACE"), ProxyMethod::Other);
}

#[test]
fn process_events_by_name() {
    let mut metrics = Metrics::new();
    metrics.record_process_spawn("agent");
    metrics.record_process_spawn("trace-agent");
    metrics.record_process_spawn("other");
    metrics.record_process_failure("trace-agent");
    assert_eq!(metrics.agent_spawns(), 1);
    assert_eq!(metrics.trace_agent_spawns(), 1);
    assert_eq!(metrics.trace_agent_failures(), 1);
    assert_eq!(metrics.agent_failures(), 0);
}

#[test]
fn dogstatsd_counters() {
    let mut metrics = Metrics::new();
    metrics.record_dogstatsd_request();
    metrics.record_dogstatsd_request();
    metrics.record_dogstatsd_success();
    metrics.record_dogstatsd_error();
    assert_eq!(metrics.dogstatsd_requests(), 2);
    assert_eq!(metrics.dogstatsd_successes(), 1);
    assert_eq!(metrics.dogstatsd_errors(), 1);
}

#[test]
fn counters_wrap_like_atomics() {
    let mut metrics = Metrics::new();
    metrics.agent_spawns = u64::MAX;
    metrics.record_agent_spawn();
    assert_eq!(metrics.agent_spawns(), 0);
}

#[test]
fn status_only_counter_leaves_samples_alone() {
    let mut metrics = Metrics::new();
    metrics.record_proxy_response_status(204);
    assert_eq!(metrics.proxy_2xx_responses(), 1);
    assert_eq!(metrics.response_time_sample_count(), 0);
}
