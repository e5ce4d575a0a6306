use sqllog2db::config::LoggingConfig;
use sqllog2db::logging::{enabled, log_file_name, parse_log_level, simple_logging_filter, Level, LevelFilter};

#[test]
fn test_parse_log_level_names() {
    assert_eq!(parse_log_level("INFO").unwrap(), LevelFilter::Info);
    assert_eq!(parse_log_level("trace").unwrap(), LevelFilter::Trace);
    assert_eq!(parse_log_level("Warn").unwrap(), LevelFilter::Warn);
    assert!(parse_log_level("loud").is_err());
}

#[test]
fn test_enabled_by_rank() {
    assert!(enabled(LevelFilter::Info, Level::Warn));
    assert!(enabled(LevelFilter::Info, Level::Info));
    assert!(!enabled(LevelFilter::Info, Level::Debug));
    assert!(!enabled(LevelFilter::Off, Level::Error));
    assert!(enabled(LevelFilter::Trace, Level::Trace));
    assert!(!enabled(LevelFilter::Error, Level::Warn));
}

#[test]
fn test_log_file_name() {
    assert_eq!(log_file_name("sqllog2db", Some("txt")), "sqllog2db.txt");
    assert_eq!(log_file_name("app", None), "app.log");
}

#[test]
fn test_init_simple_logging_levels() {
    assert_eq!(simple_logging_filter(false, false), LevelFilter::Info);
    assert_eq!(simple_logging_filter(true, true), LevelFilter::Debug);
    assert_eq!(simple_logging_filter(false, true), LevelFilter::Error);
}

#[test]
fn test_parse_log_level_agrees_with_validate_on_ascii() {
    for level in ["trace", "DEBUG", "Info", "wArN", "error", "loud", "", "inf"] {
        let cfg = LoggingConfig { level: level.to_string(), ..LoggingConfig::default() };
        assert_eq!(parse_log_level(level).is_ok(), cfg.validate().is_ok(), "{level}");
    }
}
