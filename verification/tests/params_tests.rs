use sqllog2db::params::{apply_params, count_placeholders, parse_params, ParamValue};

fn bare(s: &str) -> ParamValue {
    ParamValue::Bare(s.to_string())
}
fn quoted(s: &str) -> ParamValue {
    ParamValue::Quoted(s.to_string())
}

// ── parse_params ──────────────────────────────────────────────────────────

#[test]
fn test_parse_single_varchar() {
    let params = parse_params("PARAMS(SEQNO, TYPE, DATA)={(0, VARCHAR, 'SM')}").unwrap();
    assert_eq!(params.len(), 1);
    assert_eq!(params[0].as_sql(), "'SM'");
}

#[test]
fn test_parse_mixed_types() {
    let params = parse_params(
        "PARAMS(SEQNO, TYPE, DATA)={(0, DEC, 3), (1, VARCHAR, 'send ok'), (2, DEC, 0), (3, INTEGER, 42)}",
    )
    .unwrap();
    assert_eq!(params.len(), 4);
    assert_eq!(params[0].as_sql(), "3");
    assert_eq!(params[1].as_sql(), "'send ok'");
    assert_eq!(params[2].as_sql(), "0");
    assert_eq!(params[3].as_sql(), "42");
}

#[test]
fn test_parse_blob_empty() {
    let params = parse_params("PARAMS(SEQNO, TYPE, DATA)={(0, DEC, 1), (1, BLOB, )}").unwrap();
    assert_eq!(params.len(), 2);
    assert_eq!(params[0].as_sql(), "1");
    assert_eq!(params[1].as_sql(), "NULL");
}

#[test]
fn test_parse_quoted_with_escaped_quote() {
    let params = parse_params("PARAMS(SEQNO, TYPE, DATA)={(0, VARCHAR, 'O''Brien')}").unwrap();
    assert_eq!(params[0].as_sql(), "'O''Brien'");
}

#[test]
fn test_parse_invalid_returns_none() {
    assert!(parse_params("not a params record").is_none());
}

// ── apply_params ──────────────────────────────────────────────────────────

#[test]
fn test_apply_single_string_param() {
    let params = vec![quoted("'3USJ29'")];
    let result = apply_params("WHERE code = ?", &params, false);
    assert_eq!(result, "WHERE code = '3USJ29'");
}

#[test]
fn test_apply_numeric_param() {
    let params = vec![bare("42")];
    let result = apply_params("WHERE id = ?", &params, false);
    assert_eq!(result, "WHERE id = 42");
}

#[test]
fn test_apply_null_param() {
    let params = vec![ParamValue::Null];
    let result = apply_params("WHERE tag = ?", &params, false);
    assert_eq!(result, "WHERE tag = NULL");
}

#[test]
fn test_apply_multiple_params() {
    let params = vec![bare("2370075"), quoted("'SJ-1'"), ParamValue::Null];
    let result = apply_params("VALUES (?, ?, ?)", &params, false);
    assert_eq!(result, "VALUES (2370075, 'SJ-1', NULL)");
}

#[test]
fn test_apply_no_placeholders() {
    let params = vec![bare("1")];
    let result = apply_params("SELECT 1", &params, false);
    assert_eq!(result, "SELECT 1");
}

#[test]
fn test_apply_skip_literal_contents() {
    // The '?' inside the string literal should NOT be replaced
    let params = vec![quoted("'real'")];
    let result = apply_params("WHERE a = '?' AND b = ?", &params, false);
    assert_eq!(result, "WHERE a = '?' AND b = 'real'");
}

#[test]
fn test_apply_insert_with_function() {
    // current_timestamp is not a placeholder; only the bare ? are replaced
    let params = vec![bare("1"), quoted("'hello'"), bare("99")];
    let result = apply_params(
        "INSERT INTO t VALUES (?,current_timestamp,?,?)",
        &params,
        false,
    );
    assert_eq!(
        result,
        "INSERT INTO t VALUES (1,current_timestamp,'hello',99)"
    );
}

#[test]
fn test_apply_chinese_in_param() {
    let params = vec![quoted("'张三'")];
    let result = apply_params("WHERE name = ?", &params, false);
    assert_eq!(result, "WHERE name = '张三'");
}

// ── colon-style placeholders ───────────────────────────────────────────────

#[test]
fn test_apply_colon_style_basic() {
    let params = vec![bare("10"), quoted("'abc'")];
    let result = apply_params("WHERE id = :1 AND code = :2", &params, true);
    assert_eq!(result, "WHERE id = 10 AND code = 'abc'");
}

#[test]
fn test_apply_colon_style_out_of_order() {
    let params = vec![bare("1"), bare("2"), bare("3")];
    let result = apply_params("SELECT :3, :1, :2", &params, true);
    assert_eq!(result, "SELECT 3, 1, 2");
}

#[test]
fn test_count_placeholders_question() {
    let (count, colon_style) = count_placeholders("WHERE a = ? AND b = ?");
    assert_eq!(count, 2);
    assert!(!colon_style);
}

#[test]
fn test_count_placeholders_colon() {
    let (count, colon_style) = count_placeholders("WHERE a = :1 AND b = :2 AND c = :3");
    assert_eq!(count, 3);
    assert!(colon_style);
}

#[test]
fn test_count_placeholders_skips_literals() {
    let (count, colon_style) = count_placeholders("WHERE a = '?' AND b = ?");
    assert_eq!(count, 1);
    assert!(!colon_style);
}

#[test]
fn test_count_placeholders_none() {
    let (count, colon_style) = count_placeholders("SELECT 1");
    assert_eq!(count, 0);
    assert!(!colon_style);
}

#[test]
fn test_no_values_leaves_sql_unchanged() {
    let sql = "UPDATE t SET a = ?, b = :1 WHERE c = '?' AND d = ':2'";
    assert_eq!(apply_params(sql, &[], false), sql);
    assert_eq!(apply_params(sql, &[], true), sql);
}

#[test]
fn test_placeholders_inside_literals_never_replaced() {
    let sql = "SELECT '?', ':1' FROM t WHERE a = 'x:2?'";
    assert_eq!(count_placeholders(sql), (0, false));
    let values = vec![bare("7"), quoted("'z'")];
    assert_eq!(apply_params(sql, &values, false), sql);
    assert_eq!(apply_params(sql, &values, true), sql);
}
