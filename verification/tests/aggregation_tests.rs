use sqllog2db::pipeline::{
    interrupt_check_due, normalize_enabled, placeholder_override_of, progress_flush_due, record_action,
    use_parallel, FileDecision, RecordAction, RunProgress,
};
use sqllog2db::features::ReplaceParametersConfig;
use sqllog2db::ranking::{rank_by_count, rank_by_key};
use sqllog2db::sqlite_sql::{batch_commit_due, build_create_sql, build_insert_sql, prepare_table_sql};
use sqllog2db::tally::{group_key, Tally};

#[test]
fn test_tally_counts_in_first_seen_order() {
    let mut t = Tally::new();
    assert_eq!(t.add("b"), 0);
    assert_eq!(t.add("a"), 1);
    assert_eq!(t.add("b"), 0);
    assert_eq!(t.len(), 2);
    assert_eq!(t.keys(), &vec!["b".to_string(), "a".to_string()]);
    assert_eq!(t.counts(), &vec![2, 1]);
}

#[test]
fn test_group_key_unknown() {
    assert_eq!(group_key(""), "(unknown)");
    assert_eq!(group_key("alice"), "alice");
}

#[test]
fn test_rank_by_count_order_and_filter() {
    let keys: Vec<String> = vec!["c".into(), "a".into(), "b".into(), "d".into()];
    let counts = vec![5, 7, 5, 1];
    assert_eq!(rank_by_count(&keys, &counts, 0, None), vec![1, 2, 0, 3]);
    assert_eq!(rank_by_count(&keys, &counts, 2, None), vec![1, 2, 0]);
    assert_eq!(rank_by_count(&keys, &counts, 0, Some(2)), vec![1, 2]);
    assert_eq!(rank_by_count(&keys, &counts, 0, Some(10)), vec![1, 2, 0, 3]);
    assert_eq!(rank_by_count(&keys, &counts, 100, Some(3)), Vec::<usize>::new());
}

#[test]
fn test_sqlite_build_insert_sql_ordered() {
    let sql = build_insert_sql("t", &[10, 4]);
    assert_eq!(sql, "INSERT INTO t (sql, username) VALUES (?, ?)");
}

#[test]
fn test_sqlite_build_create_sql_ordered() {
    let sql = build_create_sql("t", &[10, 4]);
    assert_eq!(sql, "CREATE TABLE IF NOT EXISTS t (sql TEXT NOT NULL, username TEXT NOT NULL)");
}

#[test]
fn test_sqlite_build_insert_sql_full_fast_path() {
    let all_indices: Vec<usize> = (0..15).collect();
    let sql = build_insert_sql("t", &all_indices);
    assert_eq!(sql, "INSERT INTO t VALUES (?, ?, ?, ?, ?, ?, ?, ?, ?, ?, ?, ?, ?, ?, ?)");
}

#[test]
fn test_sqlite_batch_commit_due() {
    assert!(batch_commit_due(10_000, 10_000));
    assert!(!batch_commit_due(9_999, 10_000));
}

#[test]
fn test_record_actions() {
    assert_eq!(record_action(true, true, true, true, None, 0), RecordAction::Export { normalize: false });
    assert_eq!(record_action(true, true, true, false, None, 0), RecordAction::Export { normalize: true });
    assert_eq!(record_action(true, false, false, true, None, 0), RecordAction::Export { normalize: false });
    assert_eq!(record_action(false, false, true, true, None, 0), RecordAction::FeedParams);
    assert_eq!(record_action(false, true, true, false, None, 0), RecordAction::Drop);
    assert_eq!(record_action(true, true, true, true, Some(3), 3), RecordAction::StopAtLimit);
    assert_eq!(record_action(true, true, true, true, Some(3), 2), RecordAction::Export { normalize: false });
}

#[test]
fn test_run_switches() {
    assert!(use_parallel(false, 4, 2, None, true));
    assert!(!use_parallel(true, 4, 2, None, true));
    assert!(!use_parallel(false, 4, 2, Some(10), true));
    assert!(!use_parallel(false, 1, 2, None, true));
    assert!(normalize_enabled(&None));
    let rp = Some(ReplaceParametersConfig { enable: false, placeholders: vec![":1".into()] });
    assert!(!normalize_enabled(&rp));
    assert_eq!(placeholder_override_of(&rp), Some(true));
    assert_eq!(placeholder_override_of(&None), None);
    assert!(interrupt_check_due(2048));
    assert!(!interrupt_check_due(2047));
    assert!(progress_flush_due(4096));
    assert!(!progress_flush_due(4095));
}

#[test]
fn test_run_progress_limit() {
    let mut p = RunProgress::new(Some(5));
    assert_eq!(p.next_file(false, false), FileDecision::Process { remaining: Some(5) });
    assert!(p.file_done(3));
    assert_eq!(p.next_file(false, true), FileDecision::Skip);
    p.file_skipped();
    assert_eq!(p.skipped_files, 1);
    assert_eq!(p.next_file(false, false), FileDecision::Process { remaining: Some(2) });
    assert!(!p.file_done(2));
    assert_eq!(p.next_file(false, false), FileDecision::Stop);
    let q = RunProgress::new(None);
    assert_eq!(q.next_file(true, false), FileDecision::Stop);
    assert_eq!(q.next_file(false, false), FileDecision::Process { remaining: None });
}

#[test]
fn test_prepare_table_sql_by_mode() {
    assert_eq!(prepare_table_sql("t", true, false), Some(("DROP TABLE IF EXISTS t".to_string(), true)));
    assert_eq!(prepare_table_sql("t", true, true), Some(("DROP TABLE IF EXISTS t".to_string(), true)));
    assert_eq!(prepare_table_sql("t", false, false), Some(("DELETE FROM t".to_string(), false)));
    assert_eq!(prepare_table_sql("t", false, true), None);
}

#[test]
fn test_rank_by_key_orders_buckets() {
    let keys: Vec<String> = ["2025-01-15 10", "2025-01-15 09", "2025-01-16 00", "2025-01-15 11"]
        .iter()
        .map(|s| s.to_string())
        .collect();
    assert_eq!(rank_by_key(&keys), vec![1, 0, 3, 2]);
}
