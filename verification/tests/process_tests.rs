use libagent::logging::LogLevel;
use libagent::pipe::{
    build_request as pipe_build_request, duration_to_millis, map_io_err, normalize_pipe_path,
    strip_pipe_prefix, WorkerRotation, WORKER_COUNT,
};
use libagent::process::{
    agent_spec_for, child_stdio_inherit, trace_agent_env_unix, trace_agent_env_windows,
    trace_spec_for, ProcessSpec,
};
use libagent::uds::build_request as uds_build_request;

#[test]
fn test_process_spec_new() {
    let spec = ProcessSpec::new(
        "test",
        "program".to_string(),
        vec!["arg1".to_string(), "arg2".to_string()],
    );
    assert_eq!(spec.name, "test");
    assert_eq!(spec.program, "program");
    assert_eq!(spec.args, vec!["arg1".to_string(), "arg2".to_string()]);
}

#[test]
fn specs_for_agents() {
    assert!(agent_spec_for(false, "datadog-agent".to_string(), vec![]).is_none());
    let agent = agent_spec_for(true, "datadog-agent".to_string(), vec![]).unwrap();
    assert_eq!(agent.name, "agent");
    assert!(!agent.is_trace_agent());
    let trace = trace_spec_for("agentless-agent".to_string(), vec!["-v".to_string()]);
    assert_eq!(trace.name, "trace-agent");
    assert!(trace.is_trace_agent());
    let copy = trace.clone();
    assert_eq!(copy.program, "agentless-agent");
    assert_eq!(copy.args, vec!["-v".to_string()]);
}

#[test]
fn stdio_inherited_only_when_debugging() {
    assert!(child_stdio_inherit(true, LogLevel::Error));
    assert!(child_stdio_inherit(false, LogLevel::Debug));
    assert!(!child_stdio_inherit(false, LogLevel::Info));
}

#[test]
fn trace_agent_environment_unix() {
    let env = trace_agent_env_unix("/tmp/custom.socket");
    assert_eq!(
        env,
        vec![
            ("DD_APM_RECEIVER_PORT".to_string(), "0".to_string()),
            ("DD_APM_RECEIVER_SOCKET".to_string(), "/tmp/custom.socket".to_string()),
        ]
    );
}

#[test]
fn trace_agent_environment_windows() {
    let env = trace_agent_env_windows(r"\\.\pipe\custom-pipe");
    assert_eq!(
        env[1],
        ("DD_APM_WINDOWS_PIPE_NAME".to_string(), "custom-pipe".to_string())
    );
    let env = trace_agent_env_windows("plain-pipe");
    assert_eq!(
        env[1],
        ("DD_APM_WINDOWS_PIPE_NAME".to_string(), "plain-pipe".to_string())
    );
    assert_eq!(env[0], ("DD_APM_RECEIVER_PORT".to_string(), "0".to_string()));
}

#[test]
fn test_normalize_pipe_path_prefixed() {
    assert_eq!(
        normalize_pipe_path(r"\\.\pipe\already-prefixed"),
        r"\\.\pipe\already-prefixed"
    );
}

#[test]
fn test_normalize_pipe_path_unprefixed() {
    assert_eq!(normalize_pipe_path("unprefixed"), r"\\.\pipe\unprefixed");
}

#[test]
fn strip_prefix_cases() {
    assert_eq!(strip_pipe_prefix(r"\\.\pipe\x"), "x");
    assert_eq!(strip_pipe_prefix("x"), "x");
    assert_eq!(strip_pipe_prefix(r"\\.\pip"), r"\\.\pip");
}

#[test]
fn pipe_wait_millis() {
    assert_eq!(duration_to_millis(0), 1);
    assert_eq!(duration_to_millis(150), 150);
    assert_eq!(duration_to_millis(u32::MAX as u128), u32::MAX - 1);
    assert_eq!(duration_to_millis(u128::MAX), u32::MAX - 1);
}

#[test]
fn pipe_error_text() {
    assert_eq!(
        map_io_err("failed to open pipe x", "pipe not found"),
        "failed to open pipe x: pipe not found"
    );
}

#[test]
fn worker_rotation_round_robin() {
    let mut r = WorkerRotation::new(WORKER_COUNT);
    let picks: Vec<usize> = (0..6).map(|_| r.submit_work().unwrap()).collect();
    assert_eq!(picks, vec![0, 1, 2, 3, 0, 1]);
    r.shutdown();
    assert_eq!(r.submit_work(), Err("worker pool shut down".to_string()));
    let mut wrap = WorkerRotation { workers: 3, next_idx: usize::MAX };
    assert_eq!(wrap.submit_work(), Ok(usize::MAX % 3));
    assert_eq!(wrap.next_idx, 0);
}

#[test]
fn transport_requests_use_their_host() {
    let unix = uds_build_request("GET", "/info", vec![], b"");
    let text = String::from_utf8(unix).unwrap();
    assert!(text.contains("Host: unix\r\n"));
    let pipe = pipe_build_request("GET", "/info", vec![], b"");
    let text = String::from_utf8(pipe).unwrap();
    assert!(text.contains("Host: pipe\r\n"));
    let custom = uds_build_request(
        "POST",
        "/v0.4/traces",
        vec![("Host".to_string(), "mine".to_string())],
        b"ab",
    );
    let text = String::from_utf8(custom).unwrap();
    assert_eq!(
        text,
        "POST /v0.4/traces HTTP/1.1\r\nHost: mine\r\nContent-Length: 2\r\nConnection: close\r\n\r\nab"
    );
}
