use sqllog2db::fingerprint::{fingerprint, normalize_template};


// --- fingerprint ---

#[test]
fn test_string_literal_replaced() {
    assert_eq!(fingerprint("WHERE name = 'alice'"), "WHERE name = ?");
}

#[test]
fn test_number_literal_replaced() {
    assert_eq!(fingerprint("WHERE id = 123"), "WHERE id = ?");
}

#[test]
fn test_decimal_literal_replaced() {
    assert_eq!(fingerprint("WHERE price > 9.99"), "WHERE price > ?");
}

#[test]
fn test_identifier_with_digit_preserved() {
    assert_eq!(fingerprint("col1 = 5"), "col1 = ?");
}

#[test]
fn test_whitespace_collapsed() {
    assert_eq!(fingerprint("SELECT  *  FROM  t"), "SELECT * FROM t");
}

#[test]
fn test_escaped_quote_in_string() {
    assert_eq!(fingerprint("WHERE name = 'it''s'"), "WHERE name = ?");
}

#[test]
fn test_multiple_literals() {
    let sql = "INSERT INTO t (a, b) VALUES ('x', 42)";
    assert_eq!(fingerprint(sql), "INSERT INTO t (a, b) VALUES (?, ?)");
}

#[test]
fn test_empty_string() {
    assert_eq!(fingerprint(""), "");
}

#[test]
fn test_same_fingerprint_for_different_values() {
    let sql1 = "SELECT * FROM t WHERE id = 1";
    let sql2 = "SELECT * FROM t WHERE id = 999";
    assert_eq!(fingerprint(sql1), fingerprint(sql2));
}

// --- normalize_template ---

#[test]
fn test_normalize_line_comment_removed() {
    assert_eq!(normalize_template("-- comment\nSELECT 1"), "SELECT 1");
}

#[test]
fn test_normalize_block_comment_replaced() {
    assert_eq!(normalize_template("/* multi */ SELECT 1"), "SELECT 1");
}

#[test]
fn test_normalize_in_list_numbers_same_key() {
    let a = normalize_template("SELECT * FROM t WHERE id IN (1, 2, 3)");
    let b = normalize_template("SELECT * FROM t WHERE id IN (10, 20, 30, 40)");
    assert_eq!(a, b);
}

#[test]
fn test_normalize_in_list_strings_same_key() {
    let a = normalize_template("SELECT * FROM t WHERE name IN ('a', 'b')");
    let b = normalize_template("SELECT * FROM t WHERE name IN ('xx', 'yy', 'zz')");
    assert_eq!(a, b);
}

#[test]
fn test_normalize_keyword_uppercase() {
    let result = normalize_template("select * from t where id = 1");
    assert!(result.contains("SELECT"), "expected SELECT in {result}");
    assert!(result.contains("FROM"), "expected FROM in {result}");
    assert!(result.contains("WHERE"), "expected WHERE in {result}");
}

#[test]
fn test_normalize_ident_with_underscore_preserved() {
    let result = normalize_template("SELECT a FROM outer_join_t");
    assert!(
        result.contains("outer_join_t"),
        "expected outer_join_t in {result}"
    );
}

#[test]
fn test_normalize_string_literal_hides_comment_marker() {
    let result = normalize_template("WHERE col = '-- not a comment'");
    assert!(
        result.contains("'-- not a comment'"),
        "expected literal preserved in {result}"
    );
}

#[test]
fn test_normalize_whitespace_collapsed() {
    assert_eq!(normalize_template("SELECT  *  FROM  t"), "SELECT * FROM t");
}

#[test]
fn test_fingerprint_same_structure_different_literals() {
    let a = fingerprint("SELECT * FROM t WHERE id = 123 AND name = 'bob' AND x IN (1, 2.5)");
    let b = fingerprint("SELECT * FROM t WHERE id = 45 AND name = 'alice' AND x IN (9, 3.75)");
    assert_eq!(a, b);
    assert_eq!(a, "SELECT * FROM t WHERE id = ? AND name = ? AND x IN (?, ?)");
    assert_ne!(fingerprint("SELECT c1 FROM t"), fingerprint("SELECT c2 FROM t"));
}

#[test]
fn test_normalize_in_list_nested_and_quoted_items_fold() {
    let a = normalize_template("select * from t where x in ('a(', f(1), 'b''c') and y = 2");
    let b = normalize_template("select * from t where x in (3) and y = 2");
    assert_eq!(a, "SELECT * FROM t WHERE x IN (?) AND y = 2");
    assert_eq!(a, b);
}

#[test]
fn test_normalize_in_list_with_subquery_kept() {
    let a = normalize_template("SELECT * FROM t WHERE id IN (SELECT id FROM u)");
    assert_eq!(a, "SELECT * FROM t WHERE id IN (SELECT id FROM u)");
}

#[test]
fn test_normalize_line_comment_keeps_tokens_apart() {
    assert_eq!(normalize_template("select a--c\nfrom t"), "SELECT a FROM t");
    assert_eq!(normalize_template("SELECT 1 -- trailing"), "SELECT 1");
}

#[test]
fn test_fingerprint_same_for_escaped_string_literal() {
    assert_eq!(fingerprint("WHERE n = 'it''s' AND m = 1"), fingerprint("WHERE n = 'x' AND m = 1"));
    assert_eq!(fingerprint("WHERE n = 'it''s'"), "WHERE n = ?");
}
