use libagent::ffi::{
    callback_for, Callback,
    cstr_arg, payload_is_valid, pipe_name_error, return_code, validate_proxy_args, CallOutcome,
};
use libagent::shutdown::{
    kill_escalation, next_kill_step, signal_name, signal_target, terminated, KillStep, Signal,
};

#[test]
fn escalation_order() {
    assert_eq!(
        kill_escalation(),
        vec![
            KillStep::Group(Signal::Term),
            KillStep::Group(Signal::Kill),
            KillStep::Pid(Signal::Term),
            KillStep::Pid(Signal::Kill),
            KillStep::Force,
        ]
    );
}

#[test]
fn escalation_stops_at_first_success() {
    assert_eq!(next_kill_step(&vec![]), Some(KillStep::Group(Signal::Term)));
    assert_eq!(next_kill_step(&vec![false]), Some(KillStep::Group(Signal::Kill)));
    assert_eq!(next_kill_step(&vec![false, true]), None);
    assert_eq!(
        next_kill_step(&vec![false, false, false, false]),
        Some(KillStep::Force)
    );
    assert_eq!(next_kill_step(&vec![false; 5]), None);
    assert!(terminated(&vec![false, true]));
    assert!(!terminated(&vec![false; 5]));
}

#[test]
fn signal_targets() {
    assert_eq!(signal_target(1234, KillStep::Group(Signal::Term)), Some(-1234));
    assert_eq!(signal_target(1234, KillStep::Pid(Signal::Kill)), Some(1234));
    assert_eq!(signal_target(1234, KillStep::Force), None);
    assert_eq!(signal_name(Signal::Term), "SIGTERM");
    assert_eq!(signal_name(Signal::Kill), "SIGKILL");
}

#[test]
fn test_cstr_arg_null_pointer() {
    let result = cstr_arg(None, "test_arg");
    assert!(result.is_err());
    assert!(result.unwrap_err().contains("test_arg is null"));
}

#[test]
fn test_cstr_arg_invalid_utf8() {
    let result = cstr_arg(some(BAD), "test_arg");
    assert!(result.is_err());
    assert!(result.unwrap_err().contains("test_arg is not valid UTF-8"));
}

#[test]
fn test_cstr_arg_valid_input() {
    let result = cstr_arg(some(b"valid string"), "test_arg");
    assert!(result.is_ok());
    assert_eq!(result.unwrap(), "valid string");
}

const JSON: &[u8] = b"Content-Type: application/json";
const BAD: &[u8] = &[0x80, 0x81];

fn some(bytes: &[u8]) -> Option<&[u8]> {
    Some(bytes)
}

#[test]
fn test_validate_proxy_args_null_method() {
    let result = validate_proxy_args(None, some(b"/test"), some(JSON), None);
    assert!(result.is_err());
    assert!(result.unwrap_err().contains("method is null"));
}

#[test]
fn test_validate_proxy_args_null_path() {
    let result = validate_proxy_args(some(b"GET"), None, some(JSON), None);
    assert!(result.is_err());
    assert!(result.unwrap_err().contains("path is null"));
}

#[test]
fn test_validate_proxy_args_invalid_method_utf8() {
    let result = validate_proxy_args(some(BAD), some(b"/test"), some(JSON), None);
    assert!(result.is_err());
    assert!(result.unwrap_err().contains("method is not valid UTF-8"));
}

#[test]
fn test_validate_proxy_args_invalid_path_utf8() {
    let result = validate_proxy_args(some(b"GET"), some(BAD), some(JSON), None);
    assert!(result.is_err());
    assert!(result.unwrap_err().contains("path is not valid UTF-8"));
}

#[test]
fn test_validate_proxy_args_null_headers() {
    let result = validate_proxy_args(some(b"GET"), some(b"/test"), None, None);
    assert!(result.is_err());
    assert!(result.unwrap_err().contains("headers is null"));
}

#[test]
fn test_validate_proxy_args_invalid_headers_utf8() {
    let result = validate_proxy_args(some(b"GET"), some(b"/test"), some(BAD), None);
    assert!(result.is_err());
    assert!(result.unwrap_err().contains("headers is not valid UTF-8"));
}

#[test]
fn test_validate_proxy_args_with_body() {
    let body_data = b"{\"test\": \"data\"}";
    let result = validate_proxy_args(some(b"POST"), some(b"/test"), some(JSON), some(body_data));
    assert!(result.is_ok());
    let (method_str, path_str, headers_vec, body_vec) = result.unwrap();
    assert_eq!(method_str, "POST");
    assert_eq!(path_str, "/test");
    assert_eq!(
        headers_vec,
        vec![("Content-Type".to_string(), "application/json".to_string())]
    );
    assert_eq!(body_vec, body_data);
}

#[test]
fn test_validate_proxy_args_empty_body() {
    let result = validate_proxy_args(some(b"GET"), some(b"/test"), some(JSON), None);
    assert!(result.is_ok());
    let (method_str, path_str, _headers_vec, body_vec) = result.unwrap();
    assert_eq!(method_str, "GET");
    assert_eq!(path_str, "/test");
    assert!(body_vec.is_empty());
}

#[test]
fn test_validate_proxy_args_path_normalization() {
    let result = validate_proxy_args(some(b"POST"), some(b"v0.7/traces"), some(JSON), None);
    assert!(result.is_ok());
    let (method_str, path_str, _headers_vec, _body_vec) = result.unwrap();
    assert_eq!(method_str, "POST");
    assert_eq!(path_str, "/v0.7/traces");
}

#[test]
fn validate_proxy_args_error_order() {
    // The method is checked before the path, the path before the headers.
    let result = validate_proxy_args(None, None, None, None);
    assert_eq!(result.unwrap_err(), "method is null");
    let result = validate_proxy_args(some(b"GET"), None, None, None);
    assert_eq!(result.unwrap_err(), "path is null");
    let result = validate_proxy_args(some(b"GET"), some(b""), some(b""), None);
    let (_, path, headers, body) = result.unwrap();
    assert_eq!(path, "/");
    assert!(headers.is_empty());
    assert!(body.is_empty());
}

#[test]
fn test_send_dogstatsd_metric_validation_error() {
    assert!(!payload_is_valid(None));
    assert_eq!(return_code(CallOutcome::InvalidArguments), -1);
}

#[test]
fn payload_and_codes() {
    assert!(!payload_is_valid(some(b"")));
    assert!(payload_is_valid(some(b"page.views:1|c")));
    assert_eq!(return_code(CallOutcome::Success), 0);
    assert_eq!(return_code(CallOutcome::Failed), -2);
    assert_eq!(return_code(CallOutcome::Panicked), -100);
}

#[test]
fn blank_pipe_name_is_an_error() {
    assert_eq!(
        pipe_name_error("   "),
        Some("LIBAGENT_TRACE_AGENT_PIPE not set".to_string())
    );
    assert_eq!(pipe_name_error("datadog-libagent"), None);
}

#[test]
fn one_callback_per_outcome() {
    assert_eq!(callback_for(CallOutcome::Success, true, true), Callback::Response);
    assert_eq!(callback_for(CallOutcome::InvalidArguments, true, true), Callback::Error);
    assert_eq!(callback_for(CallOutcome::Failed, true, true), Callback::Error);
    assert_eq!(callback_for(CallOutcome::Panicked, true, true), Callback::Error);
    assert_eq!(callback_for(CallOutcome::Failed, true, false), Callback::NoCall);
    assert_eq!(callback_for(CallOutcome::Success, false, true), Callback::NoCall);
}
