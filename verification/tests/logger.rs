use chips_core::config::LogConfig;
use chips_core::utils::logger::fields;
use chips_core::utils::logger::{LogLevel, LoggerConfig, RotationStrategy, SpanEvents};

#[test]
fn test_rotation_strategy_default() {
    let strategy = RotationStrategy::default();
    assert_eq!(strategy, RotationStrategy::Daily);
}

#[test]
fn test_rotation_strategy_from_str() {
    assert_eq!(RotationStrategy::from_str("daily"), RotationStrategy::Daily);
    assert_eq!(RotationStrategy::from_str("DAILY"), RotationStrategy::Daily);
    assert_eq!(RotationStrategy::from_str("day"), RotationStrategy::Daily);
    assert_eq!(RotationStrategy::from_str("hourly"), RotationStrategy::Hourly);
    assert_eq!(RotationStrategy::from_str("hour"), RotationStrategy::Hourly);
    assert_eq!(RotationStrategy::from_str("minutely"), RotationStrategy::Minutely);
    assert_eq!(RotationStrategy::from_str("never"), RotationStrategy::Never);
    assert_eq!(RotationStrategy::from_str("none"), RotationStrategy::Never);
    assert_eq!(RotationStrategy::from_str("invalid"), RotationStrategy::Daily);
}

#[test]
fn test_rotation_strategy_display() {
    assert_eq!(RotationStrategy::Never.to_string(), "never");
    assert_eq!(RotationStrategy::Minutely.to_string(), "minutely");
    assert_eq!(RotationStrategy::Hourly.to_string(), "hourly");
    assert_eq!(RotationStrategy::Daily.to_string(), "daily");
}

#[test]
fn rotation_names_round_trip() {
    for s in [
        RotationStrategy::Never,
        RotationStrategy::Minutely,
        RotationStrategy::Hourly,
        RotationStrategy::Daily,
    ] {
        assert_eq!(RotationStrategy::from_str(&s.to_string()), s);
    }
    assert_eq!(RotationStrategy::from_str("Minute"), RotationStrategy::Minutely);
}

#[test]
fn test_logger_config_default() {
    let config = LoggerConfig::default();
    assert_eq!(config.level, "info");
    assert!(!config.json_format);
    assert!(config.console_output);
    assert!(config.file_output.is_none());
    assert_eq!(config.file_prefix, "chips-core");
    assert_eq!(config.rotation, RotationStrategy::Daily);
    assert_eq!(config.max_files, 7);
    assert!(config.show_target);
    assert!(!config.show_thread_ids);
    assert!(config.show_file_line);
    assert!(config.show_timestamp);
    assert!(config.show_level);
    assert!(config.ansi_colors);
}

#[test]
fn test_logger_config_builder() {
    let config = LoggerConfig::builder()
        .level("debug")
        .json_format(true)
        .console_output(true)
        .file_output("/var/log/chips")
        .file_prefix("myapp")
        .rotation(RotationStrategy::Hourly)
        .max_files(14)
        .show_target(false)
        .show_thread_ids(true)
        .show_file_line(false)
        .show_timestamp(true)
        .show_level(true)
        .filter_directives("chips_core=trace")
        .ansi_colors(false)
        .build();

    assert_eq!(config.level, "debug");
    assert!(config.json_format);
    assert!(config.console_output);
    assert_eq!(config.file_output, Some("/var/log/chips".to_string()));
    assert_eq!(config.file_prefix, "myapp");
    assert_eq!(config.rotation, RotationStrategy::Hourly);
    assert_eq!(config.max_files, 14);
    assert!(!config.show_target);
    assert!(config.show_thread_ids);
    assert!(!config.show_file_line);
    assert!(config.show_timestamp);
    assert!(config.show_level);
    assert_eq!(config.filter_directives, Some("chips_core=trace".to_string()));
    assert!(!config.ansi_colors);
}

#[test]
fn test_logger_config_parse_level() {
    let test_cases = vec![
        ("trace", LogLevel::Trace),
        ("TRACE", LogLevel::Trace),
        ("debug", LogLevel::Debug),
        ("DEBUG", LogLevel::Debug),
        ("info", LogLevel::Info),
        ("INFO", LogLevel::Info),
        ("warn", LogLevel::Warn),
        ("WARN", LogLevel::Warn),
        ("warning", LogLevel::Warn),
        ("error", LogLevel::Error),
        ("ERROR", LogLevel::Error),
        ("invalid", LogLevel::Info),
    ];

    for (level_str, expected) in test_cases {
        let config = LoggerConfig::builder().level(level_str).build();
        assert_eq!(config.parse_level(), expected, "Failed for level: {}", level_str);
    }
}

#[test]
fn test_logger_config_from_log_config() {
    let log_config = LogConfig {
        level: "debug".to_string(),
        file_output: true,
        log_dir: Some("/var/log".to_string()),
        json_format: true,
        rotation: "hourly".to_string(),
        max_files: 14,
    };

    let logger_config = LoggerConfig::from_log_config(&log_config);

    assert_eq!(logger_config.level, "debug");
    assert!(logger_config.json_format);
    assert_eq!(logger_config.file_output, Some("/var/log".to_string()));
    assert_eq!(logger_config.rotation, RotationStrategy::Hourly);
    assert_eq!(logger_config.max_files, 14);
}

#[test]
fn test_logger_config_from_log_config_no_file() {
    let log_config = LogConfig {
        level: "info".to_string(),
        file_output: false,
        log_dir: Some("/var/log".to_string()),
        json_format: false,
        rotation: "daily".to_string(),
        max_files: 7,
    };

    let logger_config = LoggerConfig::from_log_config(&log_config);

    assert!(logger_config.file_output.is_none());
}

#[test]
fn test_span_events_default() {
    let events = SpanEvents::default();
    assert!(!events.enter);
    assert!(!events.exit);
    assert!(!events.close);
}

#[test]
fn span_events_in_builder() {
    let events = SpanEvents { enter: true, exit: false, close: true };
    let config = LoggerConfig::builder().span_events(events).build();
    assert!(config.span_events.enter);
    assert!(!config.span_events.exit);
    assert!(config.span_events.close);
}

#[test]
fn test_field_constants() {
    assert_eq!(fields::REQUEST_ID, "request_id");
    assert_eq!(fields::SENDER, "sender");
    assert_eq!(fields::RECEIVER, "receiver");
    assert_eq!(fields::ACTION, "action");
    assert_eq!(fields::MODULE_ID, "module_id");
    assert_eq!(fields::ERROR_CODE, "error_code");
    assert_eq!(fields::ERROR_MSG, "error_msg");
    assert_eq!(fields::DURATION_US, "duration_us");
    assert_eq!(fields::DURATION_MS, "duration_ms");
    assert_eq!(fields::STATUS, "status");
    assert_eq!(fields::RESULT, "result");
    assert_eq!(fields::EVENT_TYPE, "event_type");
    assert_eq!(fields::EVENT_ID, "event_id");
    assert_eq!(fields::PRIORITY, "priority");
    assert_eq!(fields::VERSION, "version");
    assert_eq!(fields::PROTOCOL_VERSION, "protocol_version");
    assert_eq!(fields::PAYLOAD_SIZE, "payload_size");
    assert_eq!(fields::QUEUE_LEN, "queue_len");
    assert_eq!(fields::CONCURRENT, "concurrent");
}
