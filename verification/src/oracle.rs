//! SQL statements of the Oracle table that receives the records.

use vstd::prelude::*;
use crate::text::owned;

verus! {

/// `prefix`, then the table name, then `suffix`.
fn around(prefix: &str, table_name: &str, suffix: &str) -> (s: String)
    ensures
        s@ == prefix@ + table_name@ + suffix@,
{
    let mut s = owned(prefix);
    s.append(table_name);
    s.append(suffix);
    s
}

/// The statement that creates the table.
pub fn create_table_sql(table_name: &str) -> (s: String)
    ensures
        s@ == "CREATE TABLE "@ + table_name@ + " (\n    ts TIMESTAMP NOT NULL,\n    ep NUMBER NOT NULL,\n    sess_id NUMBER NOT NULL,\n    thrd_id NUMBER NOT NULL,\n    username VARCHAR2(255) NOT NULL,\n    trx_id NUMBER NOT NULL,\n    stmt_id NUMBER NOT NULL,\n    appname VARCHAR2(255) NOT NULL,\n    body CLOB NOT NULL,\n    replace_parameter_body CLOB,\n    exec_time_ms NUMBER,\n    row_count NUMBER,\n    exec_id NUMBER\n)"@,
{
    around("CREATE TABLE ", table_name, " (\n    ts TIMESTAMP NOT NULL,\n    ep NUMBER NOT NULL,\n    sess_id NUMBER NOT NULL,\n    thrd_id NUMBER NOT NULL,\n    username VARCHAR2(255) NOT NULL,\n    trx_id NUMBER NOT NULL,\n    stmt_id NUMBER NOT NULL,\n    appname VARCHAR2(255) NOT NULL,\n    body CLOB NOT NULL,\n    replace_parameter_body CLOB,\n    exec_time_ms NUMBER,\n    row_count NUMBER,\n    exec_id NUMBER\n)")
}

/// The insert statement, with one `?` placeholder per column.
pub fn insert_sql(table_name: &str) -> (s: String)
    ensures
        s@ == "INSERT INTO "@ + table_name@ + " (\n    ts, ep, sess_id, thrd_id, username, trx_id, stmt_id, appname, body,\n    replace_parameter_body, exec_time_ms, row_count, exec_id\n) VALUES (?, ?, ?, ?, ?, ?, ?, ?, ?, ?, ?, ?, ?)"@,
{
    around("INSERT INTO ", table_name, " (\n    ts, ep, sess_id, thrd_id, username, trx_id, stmt_id, appname, body,\n    replace_parameter_body, exec_time_ms, row_count, exec_id\n) VALUES (?, ?, ?, ?, ?, ?, ?, ?, ?, ?, ?, ?, ?)")
}

/// The statement that drops the table.
pub fn drop_table_sql(table_name: &str) -> (s: String)
    ensures
        s@ == "DROP TABLE "@ + table_name@ + " CASCADE CONSTRAINTS"@,
{
    around("DROP TABLE ", table_name, " CASCADE CONSTRAINTS")
}

} // verus!
