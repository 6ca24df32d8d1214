use l4d2_addon_manager::logger::{level_name, log_line, needs_purge, LogLevel, MAX_LOG_SIZE};

#[test]
fn levels_are_logged_by_name() {
    assert_eq!(level_name(LogLevel::NORMAL), "NORMAL");
    assert_eq!(level_name(LogLevel::ERROR), "ERROR");
    assert_eq!(level_name(LogLevel::WARN), "WARN");
    assert_eq!(level_name(LogLevel::INFO), "INFO");
    assert_eq!(level_name(LogLevel::SUCCESS), "SUCCESS");
    assert_eq!(level_name(LogLevel::DEBUG), "DEBUG");
    assert_eq!(format!("{:?}", LogLevel::SUCCESS), "SUCCESS");
}

#[test]
fn a_line_without_prefix() {
    assert_eq!(
        log_line("2024-01-02 03:04:05 +01:00", None, LogLevel::INFO, "Start of logging session"),
        "[2024-01-02 03:04:05 +01:00] [INFO] Start of logging session"
    );
    assert_eq!(log_line("", None, LogLevel::DEBUG, ""), "[] [DEBUG] ");
}

#[test]
fn a_line_with_prefix() {
    assert_eq!(
        log_line("t", Some("send_telemetry"), LogLevel::WARN, "Failed to send telemetry: x"),
        "[t] [send_telemetry/WARN] Failed to send telemetry: x"
    );
    assert_eq!(log_line("t", Some(""), LogLevel::ERROR, "m"), "[t] [/ERROR] m");
}

#[test]
fn the_log_is_emptied_beyond_its_limit() {
    assert_eq!(MAX_LOG_SIZE, 1000000);
    assert!(!needs_purge(0));
    assert!(!needs_purge(1000000));
    assert!(needs_purge(1000001));
    assert!(needs_purge(u64::MAX));
}
