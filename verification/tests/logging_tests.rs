use libagent::logging::{
    current_log_level_from, format_log_level, format_log_line, is_debug_enabled_from, level_enabled,
    log_at, log_debug, log_error, log_info, log_warn, LogLevel,
};

const TS: &str = "2025-09-26T14:44:51.408Z";

#[test]
fn test_log_functions() {
    // Each function produces its line (or nothing) without failing.
    let current = LogLevel::Debug;
    assert!(log_error(current, TS, "test error").is_some());
    assert!(log_warn(current, TS, "test warning").is_some());
    assert!(log_info(current, TS, "test info").is_some());
    assert!(log_debug(current, TS, "test debug").is_some());
}

#[test]
fn log_line_format() {
    assert_eq!(
        format_log_line(TS, LogLevel::Warn, "hello"),
        "2025-09-26T14:44:51.408Z [libagent] [WARN] hello"
    );
    assert_eq!(
        log_error(LogLevel::Error, TS, "boom"),
        Some("2025-09-26T14:44:51.408Z [libagent] [ERROR] boom".to_string())
    );
}

#[test]
fn levels_filter_messages() {
    assert!(log_warn(LogLevel::Error, TS, "x").is_none());
    assert!(log_info(LogLevel::Warn, TS, "x").is_none());
    assert!(log_debug(LogLevel::Info, TS, "x").is_none());
    assert!(log_info(LogLevel::Info, TS, "x").is_some());
    assert!(log_error(LogLevel::Error, TS, "x").is_some());
    assert!(level_enabled(LogLevel::Debug, LogLevel::Error));
    assert!(!level_enabled(LogLevel::Error, LogLevel::Debug));
    assert_eq!(
        log_at(LogLevel::Info, TS, LogLevel::Debug, "hidden"),
        None
    );
}

#[test]
fn level_names() {
    assert_eq!(format_log_level(LogLevel::Error), "ERROR");
    assert_eq!(format_log_level(LogLevel::Warn), "WARN");
    assert_eq!(format_log_level(LogLevel::Info), "INFO");
    assert_eq!(format_log_level(LogLevel::Debug), "DEBUG");
}

#[test]
fn test_current_log_level_default() {
    let level = current_log_level_from(false, None);
    assert_eq!(level, LogLevel::Error);
}

#[test]
fn configured_levels() {
    assert_eq!(current_log_level_from(false, Some("debug")), LogLevel::Debug);
    assert_eq!(current_log_level_from(false, Some(" INFO ")), LogLevel::Info);
    assert_eq!(current_log_level_from(false, Some("warning")), LogLevel::Warn);
    assert_eq!(current_log_level_from(false, Some("warn")), LogLevel::Warn);
    assert_eq!(current_log_level_from(false, Some("loud")), LogLevel::Error);
    assert_eq!(current_log_level_from(true, Some("error")), LogLevel::Debug);
}

#[test]
fn test_is_debug_enabled_default() {
    assert!(!is_debug_enabled_from(None));
}

#[test]
fn test_is_debug_enabled_returns_bool() {
    assert!(is_debug_enabled_from(Some("1")));
    assert!(is_debug_enabled_from(Some("True")));
    assert!(is_debug_enabled_from(Some("on")));
    assert!(!is_debug_enabled_from(Some("debug")));
}

#[test]
fn levels_are_ordered() {
    assert!(LogLevel::Error < LogLevel::Warn);
    assert!(LogLevel::Warn < LogLevel::Info);
    assert!(LogLevel::Info < LogLevel::Debug);
}
