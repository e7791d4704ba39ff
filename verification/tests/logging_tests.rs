use relay_gateway::errors::CliError;
use relay_gateway::logging_config::{
    apply_file_logging_config, explicit_logging_source, parse_file_log_sink, settings_from_arguments,
    ExplicitLoggingSource, FileLoggingConfig, LoggingSettings, RawFileLogSink, SettingError, SinkLimits,
};

const LIMITS: SinkLimits = SinkLimits {
    max_queue_entries: 4,
    default_queue_entries: 2,
};

fn sink(path: &str) -> RawFileLogSink<u8, u8, (u64, usize)> {
    RawFileLogSink {
        path: Some(path.to_string()),
        level: None,
        format: None,
        queue_capacity: None,
        max_file_size_bytes: None,
        retained_files: None,
        rotation: None,
    }
}

fn settings() -> LoggingSettings<u8, u8, (u64, usize)> {
    LoggingSettings {
        level: 3,
        stderr_enabled: true,
        stderr_format: 1,
        flush_interval_millis: 9,
        sinks: vec![],
    }
}

fn config_message(e: CliError) -> String {
    match e {
        CliError::Config(m) => m,
        other => panic!("expected a configuration error, got {other:?}"),
    }
}

#[test]
fn a_sink_takes_defaults_for_what_it_leaves_out() {
    let parsed = parse_file_log_sink(sink("/var/log/relay.jsonl"), 3, 7, LIMITS).unwrap();
    assert_eq!(parsed.path, "/var/log/relay.jsonl");
    assert_eq!(parsed.level, 3);
    assert_eq!(parsed.format, 7);
    assert_eq!(parsed.queue_capacity, 2);
    assert!(parsed.rotation.is_none());
}

#[test]
fn a_sink_keeps_what_it_configures() {
    let mut raw = sink("relay.log");
    raw.level = Some(Ok(5));
    raw.format = Some(Ok(0));
    raw.queue_capacity = Some(4);
    raw.max_file_size_bytes = Some(1024);
    raw.retained_files = Some(3);
    raw.rotation = Some(Ok((1024, 3)));
    let parsed = parse_file_log_sink(raw, 3, 7, LIMITS).unwrap();
    assert_eq!(parsed.level, 5);
    assert_eq!(parsed.format, 0);
    assert_eq!(parsed.queue_capacity, 4);
    assert_eq!(parsed.rotation, Some((1024, 3)));
}

#[test]
fn a_sink_needs_a_path_that_is_not_empty() {
    let mut raw = sink("");
    raw.path = None;
    let error = parse_file_log_sink(raw, 3, 7, LIMITS).err().unwrap();
    assert_eq!(config_message(error), "logging sink requires path");
    let error = parse_file_log_sink(sink(""), 3, 7, LIMITS).err().unwrap();
    assert_eq!(config_message(error), "logging sink path must not be empty");
}

#[test]
fn refused_sink_settings_become_configuration_or_runtime_errors() {
    let mut raw = sink("a.log");
    raw.level = Some(Err(SettingError::InvalidArgument("unknown log level 'loud'".to_string())));
    let error = parse_file_log_sink(raw, 3, 7, LIMITS).err().unwrap();
    assert_eq!(config_message(error), "unknown log level 'loud'");
    let mut raw = sink("a.log");
    raw.format = Some(Err(SettingError::Other("runtime unavailable".to_string())));
    let error = parse_file_log_sink(raw, 3, 7, LIMITS).err().unwrap();
    assert!(matches!(error, CliError::Flow(m) if m == "runtime unavailable"));
}

#[test]
fn queue_capacities_are_bounded() {
    let mut raw = sink("a.log");
    raw.queue_capacity = Some(0);
    let error = parse_file_log_sink(raw, 3, 7, LIMITS).err().unwrap();
    assert_eq!(config_message(error), "logging sink queue_capacity must be greater than 0");
    let mut raw = sink("a.log");
    raw.queue_capacity = Some(5);
    let error = parse_file_log_sink(raw, 3, 7, LIMITS).err().unwrap();
    assert_eq!(
        config_message(error),
        "logging sink queue_capacity 5 exceeds maximum 4 entries per file sink"
    );
}

#[test]
fn rotation_settings_come_together() {
    let mut raw = sink("a.log");
    raw.max_file_size_bytes = Some(10);
    let error = parse_file_log_sink(raw, 3, 7, LIMITS).err().unwrap();
    assert_eq!(
        config_message(error),
        "logging sink max_file_size_bytes and retained_files must be configured together"
    );
    let mut raw = sink("a.log");
    raw.max_file_size_bytes = Some(0);
    raw.retained_files = Some(1);
    raw.rotation = Some(Err(SettingError::InvalidArgument("max_file_size_bytes must be positive".to_string())));
    let error = parse_file_log_sink(raw, 3, 7, LIMITS).err().unwrap();
    assert_eq!(config_message(error), "max_file_size_bytes must be positive");
}

#[test]
fn no_logging_table_changes_nothing() {
    let mut logging = settings();
    apply_file_logging_config(&mut logging, None, 500, 7, LIMITS).unwrap();
    assert_eq!(logging.level, 3);
    assert_eq!(logging.flush_interval_millis, 9);
}

#[test]
fn a_logging_table_applies_in_order_with_the_new_level_for_sinks() {
    let mut logging = settings();
    let config = FileLoggingConfig {
        level: Some(Ok(4)),
        stderr_enabled: Some(false),
        stderr_format: None,
        flush_interval_millis: None,
        sinks: vec![sink("a.log"), sink("b.log")],
    };
    apply_file_logging_config(&mut logging, Some(config), 500, 7, LIMITS).unwrap();
    assert_eq!(logging.level, 4);
    assert!(!logging.stderr_enabled);
    assert_eq!(logging.stderr_format, 1);
    assert_eq!(logging.flush_interval_millis, 500);
    assert_eq!(logging.sinks.len(), 2);
    assert_eq!(logging.sinks[1].path, "b.log");
    assert_eq!(logging.sinks[1].level, 4);
    assert_eq!(logging.sinks[1].format, 7);
}

#[test]
fn a_refused_setting_keeps_what_was_applied_before_it() {
    let mut logging = settings();
    let config = FileLoggingConfig {
        level: Some(Ok(4)),
        stderr_enabled: None,
        stderr_format: Some(Err(SettingError::InvalidArgument("unknown format 'xml'".to_string()))),
        flush_interval_millis: Some(1),
        sinks: vec![],
    };
    let error = apply_file_logging_config(&mut logging, Some(config), 500, 7, LIMITS).err().unwrap();
    assert_eq!(config_message(error), "unknown format 'xml'");
    assert_eq!(logging.level, 4);
    assert_eq!(logging.flush_interval_millis, 9);

    let mut logging = settings();
    let config = FileLoggingConfig {
        level: None,
        stderr_enabled: None,
        stderr_format: None,
        flush_interval_millis: Some(0),
        sinks: vec![sink("a.log"), sink("")],
    };
    let error = apply_file_logging_config(&mut logging, Some(config), 500, 7, LIMITS).err().unwrap();
    assert_eq!(config_message(error), "logging sink path must not be empty");
    assert_eq!(logging.flush_interval_millis, 0);
    assert!(logging.sinks.is_empty());
}

#[test]
fn explicit_logging_sources_are_ranked() {
    assert_eq!(explicit_logging_source(true, true, true), ExplicitLoggingSource::File);
    assert_eq!(explicit_logging_source(false, false, true), ExplicitLoggingSource::Arguments);
    assert_eq!(explicit_logging_source(false, false, false), ExplicitLoggingSource::Environment);
}

#[test]
fn command_line_settings_start_from_the_defaults() {
    let applied = settings_from_arguments(settings(), Some(Ok(0)), None).ok().unwrap();
    assert_eq!(applied.level, 0);
    assert_eq!(applied.stderr_format, 1);
    assert_eq!(applied.flush_interval_millis, 9);
    let error = settings_from_arguments(
        settings(),
        None,
        Some(Err(SettingError::InvalidArgument("unknown format".to_string()))),
    )
    .err()
    .unwrap();
    assert_eq!(config_message(error), "unknown format");
}
