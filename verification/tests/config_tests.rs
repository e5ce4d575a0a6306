use sqllog2db::config::{
    apply_cli_flags_to_config, apply_date_range, Config, CsvExporter, ExporterConfig, LoggingConfig,
    SqliteExporter,
};
use sqllog2db::error::{ConfigError, Error};
use sqllog2db::filters::FiltersFeature;

fn default_config() -> Config {
    Config::default()
}

fn invalid_value(e: Error) -> (String, String, String) {
    match e {
        Error::Config(ConfigError::InvalidValue { field, value, reason }) => (field, value, reason),
        other => panic!("expected an invalid value error, got {other:?}"),
    }
}

fn filters_with_usernames(enable: bool, names: Vec<String>) -> FiltersFeature {
    let mut f = FiltersFeature::default();
    f.enable = enable;
    f.meta.usernames = Some(names);
    f
}

#[test]
fn test_validate_default_config_passes() {
    assert!(default_config().validate().is_ok());
}

#[test]
fn test_validate_empty_logging_file() {
    let mut cfg = default_config();
    cfg.logging.file = "  ".into();
    assert!(cfg.validate().is_err());
}

#[test]
fn test_validate_empty_csv_file() {
    let mut cfg = default_config();
    cfg.exporter.csv = Some(CsvExporter { file: "  ".into(), ..CsvExporter::default() });
    assert!(cfg.validate().is_err());
}

#[test]
fn test_validate_empty_sqlite_database_url() {
    let mut cfg = default_config();
    cfg.exporter.csv = None;
    cfg.exporter.sqlite = Some(SqliteExporter { database_url: "  ".into(), ..SqliteExporter::default() });
    assert!(cfg.validate().is_err());
}

#[test]
fn test_validate_empty_sqlite_table_name() {
    let mut cfg = default_config();
    cfg.exporter.csv = None;
    cfg.exporter.sqlite = Some(SqliteExporter { table_name: "  ".into(), ..SqliteExporter::default() });
    assert!(cfg.validate().is_err());
}

#[test]
fn test_validate_invalid_log_level() {
    let mut cfg = default_config();
    cfg.logging.level = "invalid".into();
    assert!(cfg.validate().is_err());
}

#[test]
fn test_validate_log_level_ignores_ascii_case() {
    let mut cfg = default_config();
    cfg.logging.level = "WaRn".into();
    assert!(cfg.validate().is_ok());
    cfg.logging.level = "verbose".into();
    match cfg.validate() {
        Err(Error::Config(ConfigError::InvalidLogLevel { level, valid_levels })) => {
            assert_eq!(level, "verbose");
            assert_eq!(valid_levels, vec!["trace", "debug", "info", "warn", "error"]);
        }
        _ => panic!("expected an invalid log level"),
    }
}

#[test]
fn test_validate_retention_days_zero() {
    let mut cfg = default_config();
    cfg.logging.retention_days = 0;
    assert!(cfg.validate().is_err());
}

#[test]
fn test_validate_retention_days_over_365() {
    let mut cfg = default_config();
    cfg.logging.retention_days = 366;
    let (field, value, _) = invalid_value(cfg.validate().unwrap_err());
    assert_eq!(field, "logging.retention_days");
    assert_eq!(value, "366");
}

#[test]
fn test_validate_empty_sqllog_directory() {
    let mut cfg = default_config();
    cfg.sqllog.path = "  ".into();
    assert!(cfg.validate().is_err());
}

#[test]
fn test_validate_no_exporters() {
    let mut cfg = default_config();
    cfg.exporter.csv = None;
    assert!(matches!(cfg.validate(), Err(Error::Config(ConfigError::NoExporters))));
}

#[test]
fn test_apply_overrides_sqllog_path() {
    let mut cfg = default_config();
    cfg.apply_overrides(&["sqllog.path=/tmp/logs".into()]).unwrap();
    assert_eq!(cfg.sqllog.path, "/tmp/logs");
}

#[test]
fn test_apply_overrides_sqllog_directory_alias() {
    let mut cfg = default_config();
    cfg.apply_overrides(&["sqllog.directory=/tmp/logs".into()]).unwrap();
    assert_eq!(cfg.sqllog.path, "/tmp/logs");
}

#[test]
fn test_apply_overrides_logging_level() {
    let mut cfg = default_config();
    cfg.apply_overrides(&["logging.level=debug".into()]).unwrap();
    assert_eq!(cfg.logging.level, "debug");
}

#[test]
fn test_apply_overrides_csv_file() {
    let mut cfg = default_config();
    cfg.apply_overrides(&["exporter.csv.file=/tmp/out.csv".into()]).unwrap();
    assert_eq!(cfg.exporter.csv.unwrap().file, "/tmp/out.csv");
}

#[test]
fn test_apply_overrides_csv_overwrite_false() {
    let mut cfg = default_config();
    cfg.apply_overrides(&["exporter.csv.overwrite=false".into()]).unwrap();
    assert!(!cfg.exporter.csv.unwrap().overwrite);
}

#[test]
fn test_apply_overrides_sqlite_database_url() {
    let mut cfg = default_config();
    cfg.apply_overrides(&["exporter.sqlite.database_url=/tmp/out.db".into()]).unwrap();
    assert_eq!(cfg.exporter.sqlite.unwrap().database_url, "/tmp/out.db");
}

#[test]
fn test_apply_overrides_unknown_key_returns_error() {
    let mut cfg = default_config();
    let (field, value, reason) = invalid_value(cfg.apply_overrides(&["unknown.key=value".into()]).unwrap_err());
    assert_eq!(field, "unknown.key");
    assert_eq!(value, "value");
    assert_eq!(reason, "unknown config key 'unknown.key'");
}

#[test]
fn test_apply_overrides_bad_format_returns_error() {
    let mut cfg = default_config();
    let (field, value, reason) = invalid_value(cfg.apply_overrides(&["nodeleimiter".into()]).unwrap_err());
    assert_eq!(field, "nodeleimiter");
    assert_eq!(value, "");
    assert_eq!(reason, "expected KEY=VALUE format");
}

#[test]
fn test_apply_overrides_invalid_bool() {
    let mut cfg = default_config();
    assert!(cfg.apply_overrides(&["exporter.csv.overwrite=maybe".into()]).is_err());
}

#[test]
fn test_apply_overrides_retention_days_invalid() {
    let mut cfg = default_config();
    let (_, _, reason) = invalid_value(cfg.apply_overrides(&["logging.retention_days=abc".into()]).unwrap_err());
    assert_eq!(reason, "expected a positive integer");
}

#[test]
fn test_apply_overrides_numbers() {
    let mut cfg = default_config();
    cfg.apply_overrides(&["logging.retention_days=+30".into(), "exporter.sqlite.batch_size=500".into()]).unwrap();
    assert_eq!(cfg.logging.retention_days, 30);
    let sqlite = cfg.exporter.sqlite.unwrap();
    assert_eq!(sqlite.batch_size, 500);
    assert_eq!(sqlite.table_name, "sqllog_records");
    let mut cfg = default_config();
    assert!(cfg.apply_overrides(&["logging.retention_days=99999999999999999999999".into()]).is_err());
    assert!(cfg.apply_overrides(&["logging.retention_days=-1".into()]).is_err());
    assert!(cfg.apply_overrides(&["logging.retention_days=".into()]).is_err());
}

#[test]
fn test_apply_overrides_stop_at_first_error() {
    let mut cfg = default_config();
    let r = cfg.apply_overrides(&[
        "logging.level=warn".into(),
        "exporter.csv.append=perhaps".into(),
        "logging.file=never.log".into(),
    ]);
    let (field, value, reason) = invalid_value(r.unwrap_err());
    assert_eq!(field, "exporter.csv.append");
    assert_eq!(value, "perhaps");
    assert_eq!(reason, "expected true/false");
    assert_eq!(cfg.logging.level, "warn");
    assert_eq!(cfg.logging.file, "logs/sqllog2db.log");
}

#[test]
fn test_apply_overrides_value_keeps_later_equals() {
    let mut cfg = default_config();
    cfg.apply_overrides(&["sqllog.path=a=b".into()]).unwrap();
    assert_eq!(cfg.sqllog.path, "a=b");
}

#[test]
fn test_exporter_config_has_any_csv() {
    let cfg = ExporterConfig::default();
    assert!(cfg.csv.is_some());
}

#[test]
fn test_exporter_config_default_no_sqlite() {
    let cfg = ExporterConfig::default();
    assert!(cfg.sqlite.is_none());
}

#[test]
fn test_apply_overrides_csv_append() {
    let mut cfg = default_config();
    cfg.apply_overrides(&["exporter.csv.append=true".into()]).unwrap();
    assert!(cfg.exporter.csv.unwrap().append);
}

#[test]
fn test_apply_overrides_sqlite_table_name() {
    let mut cfg = default_config();
    cfg.apply_overrides(&["exporter.sqlite.table_name=my_table".into()]).unwrap();
    assert_eq!(cfg.exporter.sqlite.unwrap().table_name, "my_table");
}

#[test]
fn test_apply_overrides_sqlite_overwrite() {
    let mut cfg = default_config();
    cfg.apply_overrides(&["exporter.sqlite.overwrite=false".into()]).unwrap();
    assert!(!cfg.exporter.sqlite.unwrap().overwrite);
}

#[test]
fn test_apply_overrides_sqlite_append() {
    let mut cfg = default_config();
    cfg.apply_overrides(&["exporter.sqlite.append=true".into()]).unwrap();
    assert!(cfg.exporter.sqlite.unwrap().append);
}

#[test]
fn test_apply_overrides_features_switches() {
    let mut cfg = default_config();
    cfg.apply_overrides(&["features.filters.enable=yes".into(), "features.replace_parameters.enable=0".into()])
        .unwrap();
    let f = cfg.features.filters.unwrap();
    assert!(f.enable);
    assert!(f.meta.usernames.is_none());
    let rp = cfg.features.replace_parameters.unwrap();
    assert!(!rp.enable);
    assert!(rp.placeholders.is_empty());
}

#[test]
fn test_default_logging_config_values() {
    let cfg = LoggingConfig::default();
    assert_eq!(cfg.file, "logs/sqllog2db.log");
    assert_eq!(cfg.level, "info");
    assert_eq!(cfg.retention_days, 7);
}

#[test]
fn test_default_sqlite_exporter_values() {
    let cfg = SqliteExporter::default();
    assert_eq!(cfg.table_name, "sqllog_records");
    assert_eq!(cfg.database_url, "export/sqllog2db.db");
    assert!(cfg.overwrite);
    assert!(!cfg.append);
}

#[test]
fn test_validate_invalid_regex_in_filters() {
    let mut cfg = default_config();
    cfg.features.filters = Some(filters_with_usernames(true, vec!["[invalid".into()]));
    let (field, value, reason) = invalid_value(cfg.validate().unwrap_err());
    assert!(field.contains("features.filters.usernames"), "got: {field}");
    assert_eq!(value, "[invalid");
    assert!(reason.starts_with("invalid regex: "));
}

#[test]
fn test_validate_valid_regex_in_filters() {
    let mut cfg = default_config();
    cfg.features.filters = Some(filters_with_usernames(true, vec!["^admin.*".into()]));
    assert!(cfg.validate().is_ok());
}

#[test]
fn test_csv_exporter_default_include_performance_metrics_true() {
    let cfg = CsvExporter::default();
    assert!(cfg.include_performance_metrics);
}

#[test]
fn test_apply_one_csv_include_performance_metrics_false() {
    let mut cfg = Config::default();
    cfg.apply_one("exporter.csv.include_performance_metrics", "false")
        .expect("apply_one should succeed for valid bool");
    assert!(!cfg.exporter.csv.as_ref().unwrap().include_performance_metrics);
}

#[test]
fn test_apply_one_csv_include_performance_metrics_invalid() {
    let mut cfg = Config::default();
    let r = cfg.apply_one("exporter.csv.include_performance_metrics", "maybe");
    assert!(r.is_err());
}

fn sqlite_only(table: &str) -> Config {
    let mut cfg = default_config();
    cfg.exporter.sqlite = Some(SqliteExporter {
        database_url: "/tmp/x.db".into(),
        table_name: table.into(),
        overwrite: true,
        append: false,
        batch_size: 10_000,
    });
    cfg.exporter.csv = None;
    cfg
}

#[test]
fn test_validate_sqlite_table_name_valid_simple() {
    assert!(sqlite_only("tbl").validate().is_ok());
}

#[test]
fn test_validate_sqlite_table_name_valid_underscore_prefix() {
    assert!(sqlite_only("_records").validate().is_ok());
}

#[test]
fn test_validate_sqlite_table_name_valid_with_digits() {
    assert!(sqlite_only("t1_log_2024").validate().is_ok());
}

#[test]
fn test_validate_sqlite_table_name_rejects_leading_digit() {
    let (field, _, reason) = invalid_value(sqlite_only("1tbl").validate().unwrap_err());
    assert!(reason.contains("ASCII identifiers only"), "actual: {reason}");
    assert!(field.contains("exporter.sqlite.table_name"), "actual: {field}");
}

#[test]
fn test_validate_sqlite_table_name_rejects_special_char() {
    let (_, _, reason) = invalid_value(sqlite_only("tbl;DROP").validate().unwrap_err());
    assert!(reason.contains("ASCII identifiers only"), "actual: {reason}");
}

#[test]
fn test_validate_sqlite_table_name_rejects_quote() {
    let (_, _, reason) = invalid_value(sqlite_only("tbl\"x").validate().unwrap_err());
    assert!(reason.contains("ASCII identifiers only"), "actual: {reason}");
}

#[test]
fn test_validate_sqlite_table_name_rejects_non_ascii() {
    let (_, _, reason) = invalid_value(sqlite_only("日志表").validate().unwrap_err());
    assert!(reason.contains("ASCII identifiers only"), "actual: {reason}");
}

#[test]
fn test_validate_sqlite_table_name_rejects_space() {
    let (_, _, reason) = invalid_value(sqlite_only("my tbl").validate().unwrap_err());
    assert!(reason.contains("ASCII identifiers only"), "actual: {reason}");
}

#[test]
fn test_validate_sqlite_batch_size_zero() {
    let mut cfg = sqlite_only("tbl");
    cfg.exporter.sqlite.as_mut().unwrap().batch_size = 0;
    let (field, value, _) = invalid_value(cfg.validate().unwrap_err());
    assert_eq!(field, "exporter.sqlite.batch_size");
    assert_eq!(value, "0");
}

#[test]
fn test_validate_and_compile_default_returns_none() {
    let cfg = default_config();
    let result = cfg.validate_and_compile().expect("default config valid");
    assert!(result.is_none());
}

#[test]
fn test_validate_and_compile_filters_disabled_returns_none() {
    let mut cfg = default_config();
    cfg.features.filters = Some(filters_with_usernames(false, vec!["^admin.*".into()]));
    let result = cfg.validate_and_compile().expect("config valid");
    assert!(result.is_none());
}

#[test]
fn test_validate_and_compile_returns_compiled_pair() {
    let mut cfg = default_config();
    cfg.features.filters = Some(filters_with_usernames(true, vec!["^admin.*".into()]));
    let result = cfg.validate_and_compile().expect("config valid");
    let pair = result.expect("filters.enable=true should give Some");
    assert!(pair.0.has_filters());
}

#[test]
fn test_validate_and_compile_invalid_regex_returns_err() {
    let mut cfg = default_config();
    cfg.features.filters = Some(filters_with_usernames(true, vec!["[invalid".into()]));
    let (field, _, _) = invalid_value(cfg.validate_and_compile().err().unwrap());
    assert!(field.contains("features.filters.usernames"), "got: {field}");
}

#[test]
fn test_validate_and_compile_invalid_log_level_returns_err() {
    let mut cfg = default_config();
    cfg.logging.level = "invalid".into();
    assert!(cfg.validate_and_compile().is_err());
}

#[test]
fn test_validate_and_compile_unknown_field_returns_err() {
    let mut cfg = default_config();
    cfg.features.fields = Some(vec!["nonexistent_field".into()]);
    let (field, value, reason) = invalid_value(cfg.validate_and_compile().err().unwrap());
    assert_eq!(field, "features.fields");
    assert_eq!(value, "nonexistent_field");
    assert_eq!(
        reason,
        "unknown field 'nonexistent_field'; valid fields: ts, ep, sess_id, thrd_id, username, trx_id, statement, appname, client_ip, tag, sql, exec_time_ms, row_count, exec_id, normalized_sql"
    );
}

#[test]
fn test_validate_and_compile_matches_validate_on_ok() {
    let cfg = default_config();
    assert!(cfg.validate().is_ok());
    assert!(cfg.validate_and_compile().is_ok());
}

#[test]
fn test_apply_cli_flags_verbose() {
    let mut cfg = Config::default();
    apply_cli_flags_to_config(&mut cfg, true, false);
    assert_eq!(cfg.logging.level, "debug");
}

#[test]
fn test_apply_cli_flags_quiet() {
    let mut cfg = Config::default();
    apply_cli_flags_to_config(&mut cfg, false, true);
    assert_eq!(cfg.logging.level, "error");
}

#[test]
fn test_apply_cli_flags_neither() {
    let mut cfg = Config::default();
    let original = cfg.logging.level.clone();
    apply_cli_flags_to_config(&mut cfg, false, false);
    assert_eq!(cfg.logging.level, original);
}

#[test]
fn test_apply_date_range_both() {
    let mut cfg = Config::default();
    apply_date_range(&mut cfg, Some("2025-01-01"), Some("2025-12-31"));
    let f = cfg.features.filters.unwrap();
    assert_eq!(f.meta.start_ts.as_deref(), Some("2025-01-01"));
    assert_eq!(f.meta.end_ts.as_deref(), Some("2025-12-31"));
    assert!(f.enable);
}

#[test]
fn test_apply_date_range_from_only() {
    let mut cfg = Config::default();
    apply_date_range(&mut cfg, Some("2025-06-01"), None);
    let f = cfg.features.filters.unwrap();
    assert_eq!(f.meta.start_ts.as_deref(), Some("2025-06-01"));
    assert!(f.meta.end_ts.is_none());
}

#[test]
fn test_apply_date_range_to_only() {
    let mut cfg = Config::default();
    apply_date_range(&mut cfg, None, Some("2025-06-30"));
    let f = cfg.features.filters.unwrap();
    assert!(f.meta.start_ts.is_none());
    assert_eq!(f.meta.end_ts.as_deref(), Some("2025-06-30"));
}

#[test]
fn test_apply_date_range_neither() {
    let mut cfg = Config::default();
    apply_date_range(&mut cfg, None, None);
    assert!(cfg.features.filters.is_none());
}

#[test]
fn test_later_set_overrides_earlier() {
    let mut cfg = Config::default();
    let sets = vec![
        "exporter.csv.file=first.csv".to_string(),
        "logging.level=debug".to_string(),
        "exporter.csv.file=second.csv".to_string(),
        "features.filters.enable=true".to_string(),
        "features.filters.enable=false".to_string(),
    ];
    cfg.apply_overrides(&sets).unwrap();
    assert_eq!(cfg.exporter.csv.as_ref().unwrap().file, "second.csv");
    assert_eq!(cfg.logging.level, "debug");
    assert!(!cfg.features.filters.as_ref().unwrap().enable);
}
