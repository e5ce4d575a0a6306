use sqllog2db::error::{ConfigError, Error};
use sqllog2db::filters::{
    compile_patterns, match_any_regex, validate_pattern_list, CompiledMetaFilters, CompiledSqlFilters,
    FiltersFeature, IndicatorFilters, MetaFilters, RecordMeta, SqlFilters,
};

fn make_feature(enable: bool) -> FiltersFeature {
    FiltersFeature {
        enable,
        meta: MetaFilters::default(),
        indicators: IndicatorFilters::default(),
        sql: SqlFilters::default(),
        record_sql: SqlFilters::default(),
    }
}

fn m<'a>(trxid: &'a str, ip: &'a str, user: &'a str, tag: Option<&'a str>) -> RecordMeta<'a> {
    RecordMeta { trxid, ip, sess: "s", thrd: "t", user, stmt: "st", app: "a", tag }
}

#[test]
fn test_has_filters_disabled_returns_false() {
    let mut f = make_feature(false);
    f.meta.usernames = Some(vec!["USER".into()]);
    assert!(!f.has_filters());
}

#[test]
fn test_has_filters_empty() {
    assert!(!make_feature(true).has_filters());
}

#[test]
fn test_has_filters_with_username() {
    let mut f = make_feature(true);
    f.meta.usernames = Some(vec!["USER".into()]);
    assert!(f.has_filters());
}

#[test]
fn test_has_filters_with_start_ts() {
    let mut f = make_feature(true);
    f.meta.start_ts = Some("2025-01-01".into());
    assert!(f.has_filters());
}

#[test]
fn test_has_filters_with_indicator() {
    let mut f = make_feature(true);
    f.indicators.min_runtime_ms = Some(1000);
    assert!(f.has_filters());
}

#[test]
fn test_has_transaction_filters_disabled() {
    let mut f = make_feature(false);
    f.indicators.min_runtime_ms = Some(1000);
    assert!(!f.has_transaction_filters());
}

#[test]
fn test_has_transaction_filters_no_indicators() {
    let mut f = make_feature(true);
    f.meta.usernames = Some(vec!["USER".into()]);
    assert!(!f.has_transaction_filters());
}

#[test]
fn test_has_transaction_filters_with_min_runtime() {
    let mut f = make_feature(true);
    f.indicators.min_runtime_ms = Some(500);
    assert!(f.has_transaction_filters());
}

#[test]
fn test_has_transaction_filters_with_exec_ids() {
    let mut f = make_feature(true);
    f.indicators.exec_ids = Some(vec![1_i64, 2, 3]);
    assert!(f.has_transaction_filters());
}

#[test]
fn test_should_keep_no_filters_passes_all() {
    let f = make_feature(true);
    assert!(f.should_keep("2025-01-15 10:00:00", &m("tx1", "1.2.3.4", "USER", None)));
}

#[test]
fn test_should_keep_start_ts_before_record() {
    let mut f = make_feature(true);
    f.meta.start_ts = Some("2025-01-15 11:00:00".into());
    assert!(!f.should_keep("2025-01-15 10:00:00", &m("tx1", "1.2.3.4", "USER", None)));
}

#[test]
fn test_should_keep_start_ts_equal_record() {
    let mut f = make_feature(true);
    f.meta.start_ts = Some("2025-01-15".into());
    assert!(f.should_keep("2025-01-15 10:00:00", &m("tx1", "1.2.3.4", "USER", None)));
}

#[test]
fn test_should_keep_end_ts_after_record() {
    let mut f = make_feature(true);
    f.meta.end_ts = Some("2025-01-15 09:00:00".into());
    assert!(!f.should_keep("2025-01-15 10:00:00", &m("tx1", "1.2.3.4", "USER", None)));
}

#[test]
fn test_should_keep_meta_username_match() {
    let mut f = make_feature(true);
    f.meta.usernames = Some(vec!["USER".into()]);
    assert!(f.should_keep("2025-01-15 10:00:00", &m("tx1", "1.2.3.4", "USER", None)));
    assert!(!f.should_keep("2025-01-15 10:00:00", &m("tx1", "1.2.3.4", "OTHER", None)));
}

#[test]
fn test_should_keep_meta_trxid_exact_match() {
    let mut f = make_feature(true);
    f.meta.trxids = Some(vec!["TX123".into()]);
    assert!(f.should_keep("ts", &m("TX123", "ip", "u", None)));
    assert!(!f.should_keep("ts", &m("TX999", "ip", "u", None)));
}

#[test]
fn test_should_keep_meta_tag_match() {
    let mut f = make_feature(true);
    f.meta.tags = Some(vec!["SEL".into()]);
    assert!(f.should_keep("ts", &m("tx", "ip", "u", Some("[SEL]"))));
    assert!(!f.should_keep("ts", &m("tx", "ip", "u", Some("[INS]"))));
    assert!(!f.should_keep("ts", &m("tx", "ip", "u", None)));
}

#[test]
fn test_should_keep_meta_client_ip_substring() {
    let mut f = make_feature(true);
    f.meta.client_ips = Some(vec!["192.168".into()]);
    assert!(f.should_keep("ts", &m("tx", "192.168.1.1", "u", None)));
    assert!(!f.should_keep("ts", &m("tx", "10.0.0.1", "u", None)));
}

#[test]
fn test_merge_found_trxids_empty_list() {
    let mut f = make_feature(true);
    f.meta.usernames = Some(vec!["USER".into()]);
    f.merge_found_trxids(vec![]);
    assert!(f.meta.trxids.is_none());
}

#[test]
fn test_merge_found_trxids_adds_to_set() {
    let mut f = make_feature(true);
    f.meta.usernames = Some(vec!["USER".into()]);
    f.merge_found_trxids(vec!["TX1".into(), "TX2".into()]);
    let trxids = f.meta.trxids.unwrap();
    assert!(trxids.iter().any(|t| t == "TX1"));
    assert!(trxids.iter().any(|t| t == "TX2"));
}

#[test]
fn test_indicator_has_filters_empty() {
    assert!(!IndicatorFilters::default().has_filters());
}

#[test]
fn test_sql_filters_empty() {
    assert!(!SqlFilters::default().has_filters());
    assert!(!SqlFilters::default().matches("SELECT 1"));
}

#[test]
fn test_sql_filters_include_pattern() {
    let f = SqlFilters { include_patterns: Some(vec!["SELECT".into()]), exclude_patterns: None };
    assert!(f.matches("SELECT * FROM t"));
    assert!(!f.matches("INSERT INTO t VALUES (1)"));
}

#[test]
fn test_sql_filters_exclude_pattern() {
    let f = SqlFilters { include_patterns: None, exclude_patterns: Some(vec!["DROP".into()]) };
    assert!(f.matches("SELECT * FROM t"));
    assert!(!f.matches("DROP TABLE t"));
}

#[test]
fn test_sql_filters_include_and_exclude() {
    let f = SqlFilters {
        include_patterns: Some(vec!["FROM t".into()]),
        exclude_patterns: Some(vec!["WHERE id=0".into()]),
    };
    assert!(f.matches("SELECT * FROM t WHERE id=1"));
    assert!(!f.matches("SELECT * FROM t WHERE id=0"));
    assert!(!f.matches("SELECT * FROM other"));
}

#[test]
fn test_sql_filters_empty_include_patterns_with_exclude() {
    let f = SqlFilters { include_patterns: Some(vec![]), exclude_patterns: Some(vec!["DROP".into()]) };
    assert!(f.matches("SELECT 1"));
    assert!(!f.matches("DROP TABLE t"));
}

#[test]
fn test_compile_patterns_none() {
    let result = compile_patterns(None);
    assert!(result.is_ok());
    assert!(result.unwrap().is_none());
}

#[test]
fn test_compile_patterns_empty() {
    let result = compile_patterns(Some(&[]));
    assert!(result.is_ok());
    assert!(result.unwrap().is_none());
}

#[test]
fn test_compile_patterns_valid() {
    let patterns = vec!["^admin.*".to_string()];
    let result = compile_patterns(Some(&patterns));
    assert!(result.is_ok());
    let compiled = result.unwrap();
    assert!(compiled.is_some());
    assert_eq!(compiled.unwrap().len(), 1);
}

#[test]
fn test_compile_patterns_invalid() {
    let patterns = vec!["[invalid".to_string()];
    let result = compile_patterns(Some(&patterns));
    assert!(result.is_err());
    assert_eq!(result.err().unwrap(), "[invalid");
}

#[test]
fn test_match_any_regex_none_passes() {
    assert!(match_any_regex(&None, "anything"));
}

#[test]
fn test_match_any_regex_empty_passes() {
    assert!(match_any_regex(&Some(vec![]), "anything"));
}

#[test]
fn test_match_any_regex_match() {
    let re = compile_patterns(Some(&["^admin".to_string()])).unwrap().unwrap();
    assert!(match_any_regex(&Some(re), "admin_dba"));
}

#[test]
fn test_match_any_regex_no_match() {
    let re = compile_patterns(Some(&["^admin".to_string()])).unwrap().unwrap();
    assert!(!match_any_regex(&Some(re), "sys_admin"));
}

fn make_compiled_meta(usernames: Option<Vec<String>>, client_ips: Option<Vec<String>>) -> CompiledMetaFilters {
    let meta = MetaFilters { usernames, client_ips, ..MetaFilters::default() };
    CompiledMetaFilters::from_meta(&meta)
}

#[test]
fn test_compiled_meta_unconfigured_passes() {
    let compiled = make_compiled_meta(None, None);
    assert!(compiled.should_keep(&m("tx", "1.2.3.4", "any_user", None)));
}

#[test]
fn test_compiled_meta_and_semantics() {
    let compiled =
        make_compiled_meta(Some(vec!["^admin".to_string()]), Some(vec!["^192\\.168".to_string()]));
    assert!(compiled.should_keep(&m("tx", "192.168.1.1", "admin_dba", None)));
    assert!(!compiled.should_keep(&m("tx", "10.0.0.1", "admin_dba", None)));
    assert!(!compiled.should_keep(&m("tx", "192.168.1.1", "sys_user", None)));
}

#[test]
fn test_compiled_meta_single_field_or() {
    let meta = MetaFilters {
        usernames: Some(vec!["^admin".to_string(), ".*_dba$".to_string()]),
        ..MetaFilters::default()
    };
    let compiled = CompiledMetaFilters::from_meta(&meta);
    assert!(compiled.should_keep(&m("tx", "ip", "admin_user", None)));
    assert!(compiled.should_keep(&m("tx", "ip", "sys_dba", None)));
    assert!(!compiled.should_keep(&m("tx", "ip", "regular_user", None)));
}

#[test]
fn test_compiled_meta_tags_none_rejected() {
    let meta = MetaFilters { tags: Some(vec!["^SEL".to_string()]), ..MetaFilters::default() };
    let compiled = CompiledMetaFilters::from_meta(&meta);
    assert!(!compiled.should_keep(&m("tx", "ip", "user", None)));
    assert!(compiled.should_keep(&m("tx", "ip", "user", Some("SELECT"))));
    assert!(!compiled.should_keep(&m("tx", "ip", "user", Some("INSERT"))));
}

#[test]
fn test_compiled_meta_trxids_and() {
    let meta = MetaFilters {
        usernames: Some(vec!["^admin".to_string()]),
        trxids: Some(vec!["TX123".to_string()]),
        ..MetaFilters::default()
    };
    let compiled = CompiledMetaFilters::from_meta(&meta);
    assert!(compiled.should_keep(&m("TX123", "ip", "admin_user", None)));
    assert!(!compiled.should_keep(&m("TX999", "ip", "admin_user", None)));
    assert!(!compiled.should_keep(&m("TX123", "ip", "other_user", None)));
}

#[test]
fn test_compiled_sql_include_regex() {
    let sf = SqlFilters { include_patterns: Some(vec!["^SELECT".to_string()]), exclude_patterns: None };
    let compiled = CompiledSqlFilters::from_sql_filters(&sf);
    assert!(compiled.matches("SELECT * FROM t"));
    assert!(!compiled.matches("INSERT INTO t VALUES (1)"));
}

#[test]
fn test_compiled_sql_exclude_regex() {
    let sf = SqlFilters { include_patterns: None, exclude_patterns: Some(vec!["DROP".to_string()]) };
    let compiled = CompiledSqlFilters::from_sql_filters(&sf);
    assert!(compiled.matches("SELECT 1"));
    assert!(!compiled.matches("DROP TABLE t"));
}

#[test]
fn test_validate_regexes_names_first_bad_list() {
    let mut f = make_feature(true);
    f.meta.client_ips = Some(vec!["ok".into(), "(bad".into()]);
    f.record_sql.include_patterns = Some(vec!["[also bad".into()]);
    match f.validate_regexes() {
        Err(sqllog2db::error::Error::Config(sqllog2db::error::ConfigError::InvalidValue { field, value, .. })) => {
            assert_eq!(field, "features.filters.client_ips");
            assert_eq!(value, "(bad");
        }
        _ => panic!("expected an invalid value error"),
    }
    f.meta.client_ips = None;
    f.record_sql.include_patterns = None;
    assert!(f.validate_regexes().is_ok());
}

#[test]
fn test_validate_pattern_list_reports_regex_error() {
    let patterns = vec!["ok".to_string(), "(unclosed".to_string()];
    match validate_pattern_list("features.filters.usernames", Some(&patterns)) {
        Err(Error::Config(ConfigError::InvalidValue { field, value, reason })) => {
            assert_eq!(field, "features.filters.usernames");
            assert_eq!(value, "(unclosed");
            let expected = format!("invalid regex: {}", regex::Regex::new("(unclosed").unwrap_err());
            assert_eq!(reason, expected);
        }
        other => panic!("unexpected result: {other:?}"),
    }
    assert!(validate_pattern_list("f", Some(&["^a$".to_string()])).is_ok());
    assert!(validate_pattern_list("f", None).is_ok());
}

#[test]
fn test_indicator_matches_counts() {
    let f = IndicatorFilters { exec_ids: Some(vec![7, 42]), min_runtime_ms: None, min_row_count: Some(100) };
    assert!(f.matches_counts(42, 0));
    assert!(f.matches_counts(1, 100));
    assert!(!f.matches_counts(1, 99));
    let none = IndicatorFilters { exec_ids: None, min_runtime_ms: Some(5), min_row_count: None };
    assert!(!none.matches_counts(42, 1_000_000));
}
