use sqllog2db::config::{Config, CsvExporter, SqliteExporter};
use sqllog2db::error::{Error, ParserError};
use sqllog2db::parser::{glob_matches, DirEntry, PathListing, SqllogParser};
use sqllog2db::preflight::{check_log_path, check_path_writable, output_path, OutputProbe, PreflightResult};
use sqllog2db::progress::ProgressTracker;
use sqllog2db::resume::ResumeState;
use sqllog2db::tui::{throughput_after, TuiApp};

#[test]
fn test_load_nonexistent_returns_empty() {
    let state = ResumeState::default();
    assert!(state.processed.is_empty());
}

#[test]
fn test_is_processed_matches_fingerprint() {
    let mut state = ResumeState::default();
    assert!(!state.is_processed("a.log", 5, 100));
    state.mark_processed("a.log", 5, 100, 1, "2025-01-01T00:00:00Z".into());
    assert!(state.is_processed("a.log", 5, 100));
}

#[test]
fn test_is_processed_false_after_file_changes() {
    let mut state = ResumeState::default();
    state.mark_processed("a.log", 5, 100, 1, "t".into());
    assert!(!state.is_processed("a.log", 20, 100));
    assert!(!state.is_processed("a.log", 5, 101));
    assert!(!state.is_processed("b.log", 5, 100));
}

#[test]
fn test_mark_processed_updates_existing_entry() {
    let mut state = ResumeState::default();
    state.mark_processed("a.log", 5, 100, 10, "t1".into());
    state.mark_processed("a.log", 5, 100, 20, "t2".into());
    assert_eq!(state.processed.len(), 1);
    assert_eq!(state.processed[0].records, 20);
}

#[test]
fn test_mark_processed_keeps_other_paths_in_order() {
    let mut state = ResumeState::default();
    state.mark_processed("a.log", 1, 1, 1, "t".into());
    state.mark_processed("b.log", 2, 2, 2, "t".into());
    state.mark_processed("a.log", 3, 3, 3, "t".into());
    let paths: Vec<&str> = state.processed.iter().map(|p| p.path.as_str()).collect();
    assert_eq!(paths, vec!["b.log", "a.log"]);
    assert!(state.is_processed("a.log", 3, 3));
    assert!(!state.is_processed("a.log", 1, 1));
}

#[test]
fn test_processed_count() {
    let mut state = ResumeState::default();
    for i in 0..3u64 {
        state.mark_processed(&format!("{i}.log"), 1, i, i, "t".into());
    }
    assert_eq!(state.processed_count(), 3);
}

fn entry(path: &str, name: &str, is_file: bool) -> DirEntry {
    DirEntry { path: path.into(), file_name: name.into(), is_file }
}

#[test]
fn test_log_files_of_directory() {
    let p = SqllogParser::new("logs");
    assert_eq!(p.path(), "logs");
    let listing = PathListing::Directory(vec![
        entry("logs/a.log", "a.log", true),
        entry("logs/b.txt", "b.txt", true),
        entry("logs/sub.log", "sub.log", false),
        entry("logs/.log", ".log", true),
        entry("logs/c.tar.log", "c.tar.log", true),
    ]);
    assert_eq!(p.log_files(&listing).unwrap(), vec!["logs/a.log".to_string(), "logs/c.tar.log".to_string()]);
}

#[test]
fn test_log_files_single_file_and_errors() {
    let p = SqllogParser::new("x.log");
    assert_eq!(p.log_files(&PathListing::File).unwrap(), vec!["x.log".to_string()]);
    assert!(matches!(p.log_files(&PathListing::Missing), Err(Error::Parser(ParserError::PathNotFound { .. }))));
    assert!(matches!(p.log_files(&PathListing::Other), Err(Error::Parser(ParserError::InvalidPath { .. }))));
    match p.log_files(&PathListing::ReadDirFailed("denied".into())) {
        Err(Error::Parser(ParserError::ReadDirFailed { path, reason })) => {
            assert_eq!(path, "x.log");
            assert_eq!(reason, "denied");
        }
        _ => panic!("expected a read_dir failure"),
    }
}

#[test]
fn test_preflight_result_no_errors() {
    let result = PreflightResult::default();
    assert!(!result.has_errors());
}

#[test]
fn test_preflight_result_with_errors() {
    let mut result = PreflightResult::default();
    result.errors.push("some error".to_string());
    assert!(result.has_errors());
}

#[test]
fn test_preflight_result_warnings_no_error() {
    let mut result = PreflightResult::default();
    result.warnings.push("some warning".to_string());
    assert!(!result.has_errors());
}

#[test]
fn test_check_nonexistent_log_dir_produces_error() {
    let mut result = PreflightResult::default();
    check_log_path("/nonexistent/path/xyz", false, &Ok(0), &mut result);
    assert!(result.has_errors());
    assert!(result.errors[0].contains("/nonexistent/path/xyz"));
}

#[test]
fn test_check_log_dir_empty_produces_warning() {
    let mut result = PreflightResult::default();
    check_log_path("/tmp/empty", true, &Ok(0), &mut result);
    assert!(!result.has_errors());
    assert_eq!(result.warnings.len(), 1);
}

#[test]
fn test_check_glob_pattern_no_matches_produces_warning() {
    let mut result = PreflightResult::default();
    check_log_path("/tmp/none/*.log", false, &Ok(0), &mut result);
    assert!(!result.has_errors());
    assert_eq!(result.warnings, vec!["路径 /tmp/none/*.log 中未找到 .log 文件".to_string()]);
}

#[test]
fn test_check_scan_failure_produces_error() {
    let mut result = PreflightResult::default();
    check_log_path("/tmp/x", true, &Err("boom".to_string()), &mut result);
    assert_eq!(result.errors, vec!["扫描日志路径失败: boom".to_string()]);
    let mut ok = PreflightResult::default();
    check_log_path("/tmp/x", true, &Ok(3), &mut ok);
    assert!(ok.errors.is_empty() && ok.warnings.is_empty());
}

#[test]
fn test_tui_app_progress() {
    let mut app = TuiApp::new(4, "CSV".into());
    assert_eq!(app.progress_percent(), 0);
    app.set_file(2, "b.log".into());
    assert_eq!(app.progress_percent(), 50);
    app.set_file(9, "z.log".into());
    assert_eq!(app.progress_percent(), 100);
    assert_eq!(TuiApp::new(0, "x".into()).progress_percent(), 0);
    app.add_records(10);
    app.add_errors(2);
    assert_eq!((app.exported_records, app.error_records), (10, 2));
    assert_eq!(app.throughput(), 0);
    app.finish();
    assert!(app.is_finished);
    app.start();
    assert!(app.start_time.is_some());
    let with_counters = app.with_progress_tracker(ProgressTracker::new());
    assert!(with_counters.progress_tracker.is_some());
}

#[test]
fn test_throughput_after() {
    assert_eq!(throughput_after(0, 1000), 0);
    assert_eq!(throughput_after(10, 0), 0);
    assert_eq!(throughput_after(500, 2000), 250);
    assert_eq!(throughput_after(3, 7), 428);
}

#[test]
fn test_progress_tracker_counts() {
    let t = ProgressTracker::new();
    assert_eq!(t.get_total_records(), 0);
    t.set_file_index(3);
    t.add_records(5);
    t.add_records(7);
    t.add_errors(1);
    let shared = t.clone();
    shared.add_errors(1);
    assert_eq!(t.get_file_index(), 3);
    assert_eq!(t.get_total_records(), 12);
    assert_eq!(t.get_total_errors(), 2);
}

#[test]
fn test_check_csv_output_in_existing_dir() {
    let mut result = PreflightResult::default();
    check_path_writable("out/export.csv", "out", OutputProbe::DirExists { writable: true }, &mut result);
    assert!(!result.has_errors());
    check_path_writable("export.csv", "", OutputProbe::InCurrentDir, &mut result);
    assert!(!result.has_errors());
}

#[test]
fn test_check_csv_existing_writable_file() {
    let mut result = PreflightResult::default();
    check_path_writable("out/export.csv", "out", OutputProbe::Exists { writable: true }, &mut result);
    assert!(!result.has_errors());
    assert!(result.warnings.is_empty());
}

#[test]
fn test_check_output_not_writable_messages() {
    let mut result = PreflightResult::default();
    check_path_writable("ro/a.csv", "ro", OutputProbe::Exists { writable: false }, &mut result);
    check_path_writable("ro/a.csv", "ro", OutputProbe::DirExists { writable: false }, &mut result);
    check_path_writable("x/y/a.csv", "x/y", OutputProbe::DirMissing { created: false }, &mut result);
    check_path_writable("x/y/a.csv", "x/y", OutputProbe::DirMissing { created: true }, &mut result);
    assert_eq!(
        result.errors,
        vec![
            "输出文件不可写: ro/a.csv".to_string(),
            "输出目录不可写: ro".to_string(),
            "无法创建输出目录: x/y".to_string(),
        ]
    );
}

#[test]
fn test_output_path_prefers_csv() {
    let mut cfg = Config::default();
    cfg.exporter.csv = None;
    cfg.exporter.sqlite = None;
    assert_eq!(output_path(&cfg), None);
    cfg.exporter.sqlite = Some(SqliteExporter { database_url: "db/x.db".to_string(), ..SqliteExporter::default() });
    assert_eq!(output_path(&cfg), Some("db/x.db"));
    cfg.exporter.csv = Some(CsvExporter { file: "out.csv".to_string(), ..CsvExporter::default() });
    assert_eq!(output_path(&cfg), Some("out.csv"));
}

#[test]
fn test_check_single_log_file_is_valid() {
    let mut result = PreflightResult::default();
    check_log_path("/var/log/dm/test.log", true, &Ok(1), &mut result);
    assert!(!result.has_errors());
}

#[test]
fn test_check_log_dir_with_log_files_no_warning() {
    let mut result = PreflightResult::default();
    check_log_path("/var/log/dm", true, &Ok(3), &mut result);
    assert!(!result.has_errors());
    assert!(result.warnings.is_empty());
}

#[test]
fn test_check_glob_pattern_with_matches() {
    let mut result = PreflightResult::default();
    check_log_path("/var/log/dm/*.log", false, &Ok(2), &mut result);
    assert!(!result.has_errors());
    assert!(result.warnings.is_empty());
}

#[test]
fn test_glob_matches_wildcards_and_classes() {
    assert!(glob_matches("*.log", "a.log"));
    assert!(glob_matches("2025-*.log", "2025-01-15.log"));
    assert!(!glob_matches("2025-*.log", "2024-01-15.log"));
    assert!(glob_matches("a?c.log", "abc.log"));
    assert!(!glob_matches("a?c.log", "ac.log"));
    assert!(glob_matches("[ab]*.log", "b1.log"));
    assert!(!glob_matches("[!ab]*.log", "b1.log"));
    assert!(glob_matches("log[0-9].log", "log7.log"));
    assert!(!glob_matches("*.log", "a.txt"));
}

#[test]
fn test_log_files_of_glob_pattern() {
    let p = SqllogParser::new("logs/2025-*.log");
    let listing = PathListing::Glob(vec![
        entry("logs/2024-12-31.log", "2024-12-31.log", true),
        entry("logs/2025-01-01.log", "2025-01-01.log", true),
        entry("logs/2025-sub.log", "2025-sub.log", false),
        entry("logs/2025-01-02.txt", "2025-01-02.txt", true),
    ]);
    assert_eq!(p.log_files(&listing).unwrap(), vec!["logs/2025-01-01.log".to_string()]);
    let none = SqllogParser::new("logs/nomatch*.log");
    assert!(none.log_files(&listing).unwrap().is_empty());
}

#[test]
fn test_processed_count_is_distinct_paths() {
    let mut state = ResumeState::default();
    state.mark_processed("a.log", 1, 10, 5, "t0".to_string());
    state.mark_processed("b.log", 2, 20, 6, "t1".to_string());
    state.mark_processed("c.log", 3, 30, 7, "t2".to_string());
    assert_eq!(state.processed_count(), 3);
    state.mark_processed("a.log", 4, 40, 8, "t3".to_string());
    assert_eq!(state.processed_count(), 3);
    assert!(state.is_processed("a.log", 4, 40));
    assert!(!state.is_processed("a.log", 1, 10));
}
