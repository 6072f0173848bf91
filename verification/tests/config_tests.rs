use libagent::config::{
    agent_enabled_from, agent_program_from, args_from_env, dogstatsd_pipe_name_from,
    dogstatsd_uds_path_from, get_backoff_initial_secs, get_backoff_max_secs,
    get_graceful_shutdown_timeout_secs, is_truthy, monitor_interval_secs_from,
    monitor_interval_warning, numeric_config_warning,
    remote_config_addr_from, trace_agent_pipe_name_from, trace_agent_program_from,
    trace_agent_uds_path_from, validate_numeric_config, EnvValue, BACKOFF_INITIAL_SECS,
    BACKOFF_MAX_SECS, GRACEFUL_SHUTDOWN_TIMEOUT_SECS, MAX_MONITOR_INTERVAL_SECS,
    MIN_MONITOR_INTERVAL_SECS, MONITOR_INTERVAL_SECS,
};

#[test]
fn test_get_backoff_initial_secs() {
    let initial = get_backoff_initial_secs();
    assert_eq!(initial, BACKOFF_INITIAL_SECS);
}

#[test]
fn test_get_backoff_max_secs() {
    let max = get_backoff_max_secs();
    assert_eq!(max, BACKOFF_MAX_SECS);
}

#[test]
fn test_get_graceful_shutdown_timeout_secs() {
    let timeout = get_graceful_shutdown_timeout_secs();
    assert_eq!(timeout, GRACEFUL_SHUTDOWN_TIMEOUT_SECS);
}

#[test]
fn constants_have_documented_values() {
    assert_eq!(BACKOFF_INITIAL_SECS, 1);
    assert_eq!(BACKOFF_MAX_SECS, 30);
    assert_eq!(GRACEFUL_SHUTDOWN_TIMEOUT_SECS, 5);
    assert_eq!(MONITOR_INTERVAL_SECS, 1);
}

#[test]
fn agent_program_default_and_override() {
    assert_eq!(agent_program_from(None), "datadog-agent");
    assert_eq!(
        agent_program_from(Some("/custom/path/agent".to_string())),
        "/custom/path/agent"
    );
}

#[test]
fn trace_agent_program_search_order() {
    let candidates = vec![
        ("/lib/dir/agentless-agent".to_string(), false),
        ("/exe/dir/agentless-agent".to_string(), true),
    ];
    assert_eq!(
        trace_agent_program_from(None, &candidates),
        "/exe/dir/agentless-agent"
    );
    let none_exist = vec![("/lib/dir/agentless-agent".to_string(), false)];
    assert_eq!(trace_agent_program_from(None, &none_exist), "agentless-agent");
    assert_eq!(
        trace_agent_program_from(Some("/custom/agentless-agent".to_string()), &candidates),
        "/custom/agentless-agent"
    );
}

#[test]
fn endpoint_defaults_and_overrides() {
    assert_eq!(trace_agent_uds_path_from(None), "/tmp/datadog_libagent.socket");
    assert_eq!(
        trace_agent_uds_path_from(Some("/tmp/custom.socket".to_string())),
        "/tmp/custom.socket"
    );
    assert_eq!(trace_agent_pipe_name_from(None), "datadog-libagent");
    assert_eq!(dogstatsd_uds_path_from(None), "/tmp/datadog_dogstatsd.socket");
    assert_eq!(
        dogstatsd_uds_path_from(Some("/tmp/custom_dogstatsd.socket".to_string())),
        "/tmp/custom_dogstatsd.socket"
    );
}

#[test]
fn test_dogstatsd_config_default_pipe_name() {
    let pipe_name = dogstatsd_pipe_name_from(None);
    assert_eq!(pipe_name, "datadog-dogstatsd");
}

#[test]
fn dogstatsd_pipe_name_override() {
    assert_eq!(
        dogstatsd_pipe_name_from(Some("custom-dogstatsd-pipe".to_string())),
        "custom-dogstatsd-pipe"
    );
}

#[test]
fn args_from_env_cases() {
    assert_eq!(args_from_env(None), Vec::<String>::new());
    assert_eq!(args_from_env(Some("")), Vec::<String>::new());
    assert_eq!(
        args_from_env(Some("--config /path/to/config --verbose")),
        vec![
            "--config".to_string(),
            "/path/to/config".to_string(),
            "--verbose".to_string()
        ]
    );
    assert_eq!(
        args_from_env(Some("-c \"my arg\"")),
        vec!["-c".to_string(), "my arg".to_string()]
    );
    assert_eq!(args_from_env(Some("\"unclosed quote")), Vec::<String>::new());
}

#[test]
fn monitor_interval_rules() {
    assert_eq!(monitor_interval_secs_from(None), MONITOR_INTERVAL_SECS);
    assert_eq!(monitor_interval_secs_from(Some("5")), 5);
    assert_eq!(
        monitor_interval_secs_from(Some("not-a-number")),
        MONITOR_INTERVAL_SECS
    );
    assert_eq!(monitor_interval_secs_from(Some("")), MONITOR_INTERVAL_SECS);
    assert_eq!(monitor_interval_secs_from(Some("0")), MIN_MONITOR_INTERVAL_SECS);
    assert_eq!(monitor_interval_secs_from(Some("1000")), MAX_MONITOR_INTERVAL_SECS);
}

#[test]
fn numeric_config_is_clamped() {
    assert_eq!(validate_numeric_config(0, 1, 300, "X", 1), 1);
    assert_eq!(validate_numeric_config(301, 1, 300, "X", 1), 300);
    assert_eq!(validate_numeric_config(42, 1, 300, "X", 1), 42);
}

#[test]
fn agent_enabled_switch() {
    assert!(!agent_enabled_from(None));
    assert!(agent_enabled_from(Some("true")));
    assert!(agent_enabled_from(Some("1")));
    assert!(agent_enabled_from(Some("yes")));
    assert!(agent_enabled_from(Some(" ON ")));
    assert!(!agent_enabled_from(Some("false")));
    assert!(!is_truthy("enabled"));
}

#[test]
fn remote_config_address_rules() {
    assert_eq!(
        remote_config_addr_from(EnvValue::NotPresent).as_deref(),
        Some("127.0.0.1:5001")
    );
    assert_eq!(
        remote_config_addr_from(EnvValue::Present("localhost:6001".to_string())).as_deref(),
        Some("localhost:6001")
    );
    assert_eq!(
        remote_config_addr_from(EnvValue::Present("  localhost:6001  ".to_string())).as_deref(),
        Some("localhost:6001")
    );
    assert!(remote_config_addr_from(EnvValue::Present("off".to_string())).is_none());
    assert!(remote_config_addr_from(EnvValue::Present("Disabled".to_string())).is_none());
    assert!(remote_config_addr_from(EnvValue::Present("   ".to_string())).is_none());
    assert!(remote_config_addr_from(EnvValue::NotUnicode).is_none());
}

#[test]
fn clamping_warnings() {
    assert_eq!(
        numeric_config_warning(0, 1, 300, "LIBAGENT_MONITOR_INTERVAL_SECS"),
        Some(
            "[libagent] WARN: LIBAGENT_MONITOR_INTERVAL_SECS value 0 is below minimum 1. Using minimum value 1"
                .to_string()
        )
    );
    assert_eq!(
        numeric_config_warning(500, 1, 300, "X"),
        Some("[libagent] WARN: X value 500 exceeds maximum 300. Using maximum value 300".to_string())
    );
    assert_eq!(numeric_config_warning(5, 1, 300, "X"), None);
}

#[test]
fn monitor_interval_warnings() {
    assert_eq!(monitor_interval_warning(None), None);
    assert_eq!(monitor_interval_warning(Some("5")), None);
    assert_eq!(
        monitor_interval_warning(Some("301")),
        Some(
            "[libagent] WARN: LIBAGENT_MONITOR_INTERVAL_SECS value 301 exceeds maximum 300. Using maximum value 300"
                .to_string()
        )
    );
    let invalid = "abc".parse::<u64>().unwrap_err().to_string();
    assert_eq!(
        monitor_interval_warning(Some("abc")),
        Some(format!(
            "[libagent] WARN: Invalid LIBAGENT_MONITOR_INTERVAL_SECS 'abc': {}. Using default value 1s",
            invalid
        ))
    );
}
