use aigosd::logging::{
    ensure_failure_flag_healthy, ensure_healthy, error, info, init, log, new_logger, normalize_windows_dos_path,
    record_write_outcome, reject_windows_reparse_attributes, report_write_failure, reset_write_failure,
    check_file_identity, validate_local_log_path, warn, windows_paths_match_exactly, write_failure_detected, FileIdentity,
    Level, LogErrorKind, LogState,
    Logger, WriteFailureFlag,
};
use aigosd::resolve::Platform;
use std::time::{SystemTime, UNIX_EPOCH};

fn now_millis() -> u64 {
    SystemTime::now().duration_since(UNIX_EPOCH).expect("system time").as_millis() as u64
}

#[test]
fn structured_messages_are_valid_json_for_arbitrary_text() {
    let logger = Logger { structured: true, min_level: Level::Info };
    let message = "quoted \"value\" with \\ slash and control \u{0001}";
    let line = logger
        .format_msg(Level::Error, now_millis(), message)
        .ok()
        .expect("serialize structured record");
    let value: serde_json::Value = serde_json::from_str(&line).expect("valid JSON log");

    assert_eq!(value["level"], "ERROR");
    assert_eq!(value["msg"], message);
}

#[test]
fn structured_ts_uses_millisecond_precision_with_epoch_semantics() {
    let logger = Logger { structured: true, min_level: Level::Info };
    let line = logger
        .format_msg(Level::Info, now_millis(), "timestamp precision")
        .ok()
        .expect("serialize structured record");
    let value: serde_json::Value = serde_json::from_str(&line).expect("valid JSON log");
    assert_eq!(value["level"], "INFO");
    assert_eq!(value["msg"], "timestamp precision");

    let ts_text = line
        .split_once("\"ts\":")
        .expect("structured log must contain a ts field")
        .1
        .split([',', '}'])
        .next()
        .expect("ts field must be terminated");
    let (whole, fraction) = ts_text.split_once('.').expect("ts must include a fractional part");
    assert!(
        !whole.is_empty() && whole.chars().all(|c| c.is_ascii_digit()),
        "ts integer part must be whole epoch seconds: {ts_text}"
    );
    assert_eq!(fraction.len(), 3, "ts must have exactly three fractional digits: {ts_text}");
    assert!(fraction.chars().all(|c| c.is_ascii_digit()));

    let ts = value["ts"].as_f64().expect("ts must remain a JSON number");
    let now = SystemTime::now().duration_since(UNIX_EPOCH).expect("system time").as_secs_f64();
    assert!((now - ts).abs() < 2.0, "ts must reflect current epoch seconds: {ts} vs {now}");
    assert!((0.0..1.0).contains(&ts.fract()));
}

#[test]
fn structured_record_has_exact_layout() {
    let logger = Logger { structured: true, min_level: Level::Info };
    let line = logger.format_msg(Level::Warn, 1_700_000_000_042, "hi").ok().expect("record");
    assert_eq!(line, "{\"ts\":1700000000.042,\"level\":\"WARN\",\"msg\":\"hi\"}");
    let line = logger.format_msg(Level::Info, 5, "a\"b").ok().expect("record");
    assert_eq!(line, "{\"ts\":0.005,\"level\":\"INFO\",\"msg\":\"a\\\"b\"}");
}

#[test]
fn plaintext_record_has_exact_layout() {
    let logger = new_logger("plaintext");
    let line = logger.format_msg(Level::Info, 1_700_000_000_999, "Supervisor starting").ok().expect("record");
    assert_eq!(line, "[1700000000] [INFO] Supervisor starting");
}

#[test]
fn records_below_the_minimum_level_are_dropped() {
    let logger = Some(new_logger("plaintext"));
    assert!(matches!(log(&logger, Level::Debug, 0, "quiet"), Ok(None)));
    assert_eq!(info(&logger, 0, "kept").ok().flatten().expect("info"), "[0] [INFO] kept");
    assert_eq!(warn(&logger, 1000, "w").ok().flatten().expect("warn"), "[1] [WARN] w");
    assert_eq!(error(&logger, 2000, "e").ok().flatten().expect("error"), "[2] [ERROR] e");
}

#[test]
fn records_without_a_logger_go_to_standard_error() {
    assert_eq!(info(&None, 123, "early").ok().flatten().expect("line"), "[INFO] early");
    assert_eq!(aigosd::logging::debug(&None, 0, "d").ok().flatten().expect("line"), "[DEBUG] d");
}

#[test]
fn logging_mode_selects_structured_records() {
    assert!(new_logger("structured").structured);
    assert!(!new_logger("plaintext").structured);
}

#[test]
fn file_write_failure_sets_sticky_failure_flag() {
    let mut failure_flag = WriteFailureFlag::new();
    record_write_outcome(&mut failure_flag, false);
    assert!(write_failure_detected(&failure_flag));
    assert!(ensure_failure_flag_healthy(&failure_flag).is_err());
    record_write_outcome(&mut failure_flag, true);
    assert!(ensure_healthy(&failure_flag).is_err());
    reset_write_failure(&mut failure_flag);
    assert!(ensure_failure_flag_healthy(&failure_flag).is_ok(), "reset flag should be healthy");
}

#[test]
fn failure_flag_reports_its_text() {
    let mut flag = WriteFailureFlag::new();
    assert!(ensure_healthy(&flag).is_ok());
    report_write_failure(&mut flag);
    let err = ensure_healthy(&flag).err().expect("failed");
    assert_eq!(err.message, "one or more daemon log writes have failed");
    assert!(matches!(err.kind, LogErrorKind::Other));
}

#[test]
fn windows_reparse_attributes_are_rejected() {
    let error = reject_windows_reparse_attributes(0x0000_0400).err().expect("reparse-point handle must be rejected");
    assert!(matches!(error.kind, LogErrorKind::PermissionDenied));
    assert!(reject_windows_reparse_attributes(0).is_ok(), "ordinary file attributes should pass");
}

#[test]
fn windows_dos_path_normalization_handles_extended_prefixes() {
    assert_eq!(
        normalize_windows_dos_path(r"\\?\C:\runtime\aigosd.log").ok().expect("normalize extended DOS path"),
        r"C:\runtime\aigosd.log"
    );
    assert_eq!(
        normalize_windows_dos_path(r"\\?\UNC\server\share\aigosd.log").ok().expect("normalize extended UNC path"),
        r"\\server\share\aigosd.log"
    );
    assert!(windows_paths_match_exactly(r"C:\runtime\aigosd.log", r"C:\runtime\aigosd.log"));
    assert!(
        !windows_paths_match_exactly(r"C:\runtime\aigosd.log", r"C:\Runtime\aigosd.log"),
        "case-distinct paths must fail closed on case-sensitive Windows directories"
    );
}

#[test]
fn windows_device_paths_are_refused_and_slashes_normalized() {
    let err = normalize_windows_dos_path(r"\\.\pipe\log").err().expect("device path");
    assert!(matches!(err.kind, LogErrorKind::InvalidData));
    assert_eq!(normalize_windows_dos_path("C:/runtime/aigosd.log").ok().expect("plain"), r"C:\runtime\aigosd.log");
}

#[test]
fn invalid_local_log_paths_are_permission_denied() {
    let err = validate_local_log_path("../escape.log", Platform::Unix).err().expect("escape");
    assert!(matches!(err.kind, LogErrorKind::PermissionDenied));
    assert_eq!(
        err.message,
        "invalid local log path: Log file path must not contain parent, root, or platform-prefix components"
    );
    let parts = validate_local_log_path("./aigosd.log", Platform::Unix).ok().expect("local");
    assert_eq!(parts, vec!["aigosd.log".to_string()]);
}

#[test]
fn init_checks_the_log_path_before_use() {
    let (logger, parts) = init("structured", Some("logs/aigosd.log"), Platform::Unix).ok().expect("init");
    assert!(logger.structured);
    assert_eq!(parts, Some(vec!["logs".to_string(), "aigosd.log".to_string()]));
    let (logger, parts) = init("plaintext", None, Platform::Unix).ok().expect("init");
    assert!(!logger.structured);
    assert!(parts.is_none());
    let err = init("plaintext", Some("/var/log/aigosd.log"), Platform::Unix).err().expect("absolute");
    assert!(matches!(err.kind, LogErrorKind::PermissionDenied));
}

/// The expected path of the log file is the runtime directory followed by
/// the components returned here.
#[test]
fn expected_log_path_is_canonical_runtime_root_plus_normal_components() {
    let file_name = "aigosd-logging-expected-path.log";
    let parts = validate_local_log_path(&format!("./{file_name}"), Platform::Unix).ok().expect("derive expected local log path");
    assert_eq!(parts, vec![file_name.to_string()]);
}

#[test]
fn structured_messages_escape_quotes_backslashes_and_controls() {
    let logger = Logger { structured: true, min_level: Level::Info };
    let line = logger.format_msg(Level::Info, 2_500, "q\"b\\t\tn\nc\u{1}e\u{1f}é").ok().expect("record");
    assert_eq!(
        line,
        "{\"ts\":2.500,\"level\":\"INFO\",\"msg\":\"q\\\"b\\\\t\\tn\\nc\\u0001e\\u001fé\"}"
    );
}

#[test]
fn write_failures_are_detected_from_setup_until_the_next_setup() {
    let mut state = LogState::new();
    assert!(!state.write_failure_detected());
    assert_eq!(state.line(Level::Warn, 1_000, "early").ok().expect("line"), Some("[WARN] early".to_string()));

    state.set_up(new_logger("plaintext"));
    assert!(!state.write_failure_detected());
    assert_eq!(state.line(Level::Debug, 1_000, "quiet").ok().expect("line"), None);
    assert_eq!(state.line(Level::Info, 3_000, "up").ok().expect("line"), Some("[3] [INFO] up".to_string()));
    state.record_write(true);
    assert!(!state.write_failure_detected());
    assert!(state.ensure_healthy().is_ok());

    state.record_write(false);
    assert!(state.write_failure_detected());
    state.record_write(true);
    assert!(state.write_failure_detected());
    let err = state.ensure_healthy().err().expect("unhealthy");
    assert_eq!(err.message, "one or more daemon log writes have failed");

    state.set_up(new_logger("structured"));
    assert!(!state.write_failure_detected());
}

#[test]
fn opened_log_file_must_be_the_file_at_its_path_with_one_link() {
    let file = FileIdentity { device: 2049, file_number: 77, links: 1 };
    assert!(check_file_identity(file, file).is_ok());
    let swapped = FileIdentity { file_number: 78, ..file };
    let err = check_file_identity(file, swapped).err().expect("path swapped");
    assert!(matches!(err.kind, LogErrorKind::PermissionDenied));
    assert_eq!(err.message, "log path changed during open or is hard-linked");
    let linked = FileIdentity { links: 2, ..file };
    assert!(check_file_identity(linked, linked).is_err());
    assert!(check_file_identity(file, FileIdentity { device: 2050, ..file }).is_err());
}
