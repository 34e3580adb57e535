use ls_server::capabilities::{SERVER_NAME, SERVER_VERSION};
use ls_server::logging::{
    banner_line, enabled, format_line, parse_level, utc_rfc3339, Level, LogRecord, LogSink,
};

fn record(level: Level, area: &str, message: &str) -> LogRecord {
    LogRecord { level, area: area.to_string(), message: message.to_string() }
}

#[test]
fn ls_log_parses_the_four_levels_and_defaults_to_info() {
    assert_eq!(parse_level(Some("error")), Level::Error);
    assert_eq!(parse_level(Some("WARN")), Level::Warn);
    assert_eq!(parse_level(Some("info")), Level::Info);
    assert_eq!(parse_level(Some("debug")), Level::Debug);
    assert_eq!(parse_level(None), Level::Info);
    assert_eq!(parse_level(Some("trace")), Level::Info);
    assert_eq!(parse_level(Some("banana")), Level::Info);
}

#[test]
fn the_line_format_is_elapsed_level_area_message() {
    let line = format_line(12_345, Level::Warn, "boot", "still waiting");
    assert_eq!(line, "[+12.345 WARN boot] still waiting");
    let line = format_line(7, Level::Info, "serve", "x");
    assert_eq!(line, "[+0.007 INFO serve] x");
}

#[test]
fn the_sink_filters_by_level_and_keeps_the_area_target() {
    assert!(enabled(Level::Warn, Level::Error));
    assert!(enabled(Level::Warn, Level::Warn));
    assert!(!enabled(Level::Warn, Level::Info));
    assert!(!enabled(Level::Warn, Level::Debug));

    let sink = LogSink::new(Level::Warn);
    let line = sink.line_for(0, &record(Level::Warn, "bsp-err", "boom")).unwrap();
    assert!(line.contains(" WARN bsp-err] boom"), "{line}");
    assert!(line.starts_with("[+"), "{line}");
    assert_eq!(sink.line_for(0, &record(Level::Info, "serve", "hidden")), None);
}

#[test]
fn only_the_first_file_failure_is_reported() {
    let mut sink = LogSink::new(Level::Info);
    assert!(sink.file_failed());
    assert!(!sink.file_failed());
    assert!(!sink.file_failed());
}

#[test]
fn the_banner_names_version_mode_wallclock_and_log_config() {
    let line = banner_line(42, 0, "doctor", Level::Debug, Some("/tmp/x.log"));
    assert!(line.contains(SERVER_VERSION), "{line}");
    assert!(line.contains("started 1970-01-01T00:00:00Z"), "{line}");
    assert!(line.contains("mode=doctor"), "{line}");
    assert!(line.contains("LS_LOG=debug"), "{line}");
    assert!(line.contains("LS_LOG_FILE=/tmp/x.log"), "{line}");
    let unset = banner_line(42, 0, "serve", Level::Info, None);
    assert!(unset.contains("LS_LOG_FILE=(unset)"), "{unset}");
}

#[test]
fn the_banner_carries_the_server_the_process_and_the_level() {
    let line = banner_line(4711, 0, "serve", Level::Error, None);
    assert!(line.contains(SERVER_NAME), "{line}");
    assert!(line.contains("pid=4711"), "{line}");
    assert!(line.contains("mode=serve"), "{line}");
    assert!(line.contains("LS_LOG=error"), "{line}");
}

#[test]
fn utc_rendering_matches_known_instants() {
    assert_eq!(utc_rfc3339(0), "1970-01-01T00:00:00Z");
    assert_eq!(utc_rfc3339(1_782_909_005), "2026-07-01T12:30:05Z");
}

#[test]
fn utc_rendering_crosses_leap_days_and_centuries() {
    assert_eq!(utc_rfc3339(951_782_399), "2000-02-28T23:59:59Z");
    assert_eq!(utc_rfc3339(951_782_400), "2000-02-29T00:00:00Z");
    assert_eq!(utc_rfc3339(4_107_542_400), "2100-03-01T00:00:00Z");
}
