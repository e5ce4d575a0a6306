#[test]
fn test_create_table_sql_oracle() {
    let sql = sqllog2db::oracle::create_table_sql("oracle_logs");
    assert!(sql.contains("CREATE TABLE oracle_logs"));
    assert!(sql.contains("ts TIMESTAMP"));
    assert!(sql.contains("body CLOB"));
    assert!(sql.contains("exec_id NUMBER"));
}

#[test]
fn test_insert_sql_oracle() {
    let sql = sqllog2db::oracle::insert_sql("oracle_logs");
    assert!(sql.starts_with("INSERT INTO oracle_logs"));
    assert!(sql.contains("ts, ep, sess_id, thrd_id, username"));
    assert_eq!(sql.matches('?').count(), 13);
}

#[test]
fn test_drop_table_sql_oracle() {
    let sql = sqllog2db::oracle::drop_table_sql("oracle_logs");
    assert_eq!(sql, "DROP TABLE oracle_logs CASCADE CONSTRAINTS");
}

#[test]
fn test_create_table_sql_pg() {
    let sql = sqllog2db::postgresql::create_table_sql("pg_logs");
    assert!(sql.contains("CREATE TABLE IF NOT EXISTS pg_logs"));
    assert!(sql.contains("ts TIMESTAMP"));
    assert!(sql.contains("body TEXT"));
    assert!(sql.contains("exec_id BIGINT"));
}

#[test]
fn test_insert_sql_pg() {
    let sql = sqllog2db::postgresql::insert_sql("pg_logs");
    assert!(sql.starts_with("INSERT INTO pg_logs"));
    assert!(sql.contains("ts, ep, sess_id, thrd_id, username"));
    assert_eq!(sql.matches('?').count(), 13);
}

#[test]
fn test_drop_table_sql_pg() {
    let sql = sqllog2db::postgresql::drop_table_sql("pg_logs");
    assert_eq!(sql, "DROP TABLE IF EXISTS pg_logs");
}
