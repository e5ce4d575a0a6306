use sqllog2db::exporter::{
    build_header, companion_header_line, format_companion_row, strip_ip_prefix, write_csv_escaped, write_record_line, CsvRecord,
    DryRunExporter, ExportStats, ExporterKind, TemplateStats,
};
use sqllog2db::config::{Config, CsvExporter, ExporterConfig, SqliteExporter, SqllogConfig};
use sqllog2db::features::FieldMask;

#[test]
fn test_export_stats_default() {
    let s = ExportStats::new();
    assert_eq!(s.exported, 0);
    assert_eq!(s.total(), 0);
}

#[test]
fn test_export_stats_record_success() {
    let mut s = ExportStats::new();
    s.record_success();
    s.record_success();
    assert_eq!(s.exported, 2);
    assert_eq!(s.total(), 2);
}

#[test]
fn test_export_stats_total_includes_all() {
    let mut s = ExportStats::new();
    s.exported = 5;
    s.skipped = 2;
    s.failed = 1;
    assert_eq!(s.total(), 8);
}

#[test]
fn test_strip_ip_prefix_with_prefix() {
    assert_eq!(strip_ip_prefix("::ffff:192.168.1.1"), "192.168.1.1");
}

#[test]
fn test_strip_ip_prefix_uppercase() {
    assert_eq!(strip_ip_prefix("::FFFF:10.0.0.1"), "10.0.0.1");
}

#[test]
fn test_strip_ip_prefix_no_prefix() {
    assert_eq!(strip_ip_prefix("192.168.1.1"), "192.168.1.1");
}

#[test]
fn test_strip_ip_prefix_ipv6() {
    assert_eq!(strip_ip_prefix("2001:db8::1"), "2001:db8::1");
}

#[test]
fn test_strip_ip_prefix_empty() {
    assert_eq!(strip_ip_prefix(""), "");
}

#[test]
fn test_strip_ip_prefix_colon_non_ffff() {
    assert_eq!(strip_ip_prefix("::1"), "::1");
}

#[test]
fn test_strip_ip_prefix_bare_prefix_kept() {
    assert_eq!(strip_ip_prefix("::ffff:"), "::ffff:");
}

#[test]
fn test_dry_run_exporter_counts_records() {
    let mut e = DryRunExporter::default();
    e.initialize().unwrap();
    e.stats.exported = 5;
    let snap = e.stats_snapshot().unwrap();
    assert_eq!(snap.exported, 5);
    e.export().unwrap();
    assert_eq!(e.stats_snapshot().unwrap().exported, 6);
    e.finalize().unwrap();
}

#[test]
fn test_log_stats_with_flush_operations() {
    let mut stats = ExportStats::new();
    stats.exported = 10;
    stats.flush_operations = 2;
    stats.last_flush_size = 5;
    let e = DryRunExporter { stats };
    let snap = e.stats_snapshot().unwrap();
    assert_eq!(snap.flush_operations, 2);
    assert_eq!(snap.last_flush_size, 5);
}

fn make_template_stats(key: &str) -> TemplateStats {
    TemplateStats {
        template_key: key.to_string(),
        count: 1,
        avg_us: 100,
        min_us: 10,
        max_us: 200,
        p50_us: 90,
        p95_us: 180,
        p99_us: 195,
        first_seen: "2025-01-01 00:00:00".to_string(),
        last_seen: "2025-01-01 01:00:00".to_string(),
    }
}

#[test]
fn test_dry_run_write_template_stats_noop() {
    let mut e = DryRunExporter::default();
    e.initialize().unwrap();
    let before = e.stats_snapshot().unwrap().exported;
    let stats = vec![make_template_stats("SELECT ?"), make_template_stats("INSERT ?")];
    let result = e.write_template_stats(&stats);
    assert!(result.is_ok());
    let after = e.stats_snapshot().unwrap().exported;
    assert_eq!(before, after);
}

#[test]
fn test_write_csv_escaped_with_quotes() {
    let mut buf = Vec::new();
    write_csv_escaped(&mut buf, b"say \"hello\"");
    assert_eq!(buf, b"say \"\"hello\"\"");
}

#[test]
fn test_write_csv_escaped_no_quotes() {
    let mut buf = Vec::new();
    write_csv_escaped(&mut buf, b"no quotes here");
    assert_eq!(buf, b"no quotes here");
}

#[test]
fn test_write_csv_escaped_appends_to_buffer() {
    let mut buf = b"x".to_vec();
    write_csv_escaped(&mut buf, b"plain text");
    assert_eq!(buf, b"xplain text");
}

#[test]
fn test_format_companion_row() {
    let mut buf = b"stale".to_vec();
    format_companion_row(&mut buf, &make_template_stats("SELECT \"a\""));
    assert_eq!(
        String::from_utf8(buf).unwrap(),
        "\"SELECT \"\"a\"\"\",1,100,10,200,90,180,195,\"2025-01-01 00:00:00\",\"2025-01-01 01:00:00\"\n"
    );
}

fn record<'a>(sql: &'a str, tag: Option<&'a str>, has_metrics: bool) -> CsvRecord<'a> {
    CsvRecord {
        ts: "2025-01-15 10:30:28.001",
        ep: 0,
        sess_id: "0x0001",
        thrd_id: "12",
        username: "U",
        trxid: "1",
        statement: "0x1",
        appname: "App",
        client_ip: "::ffff:10.0.0.1",
        tag,
        sql,
        exec_time_ms: 5,
        row_count: -1,
        exec_id: 7,
        has_metrics,
    }
}

#[test]
fn test_csv_line_all_fields() {
    let mut line = Vec::new();
    let r = record("SELECT \"x\"", Some("SEL"), true);
    write_record_line(&mut line, &r, true, Some("SELECT ?"), FieldMask::all(), &[], true);
    assert_eq!(
        String::from_utf8(line).unwrap(),
        "2025-01-15 10:30:28.001,0,0x0001,12,U,1,0x1,App,10.0.0.1,SEL,\"SELECT \"\"x\"\"\",5,-1,7,\"SELECT ?\"\n"
    );
}

#[test]
fn test_csv_line_without_metrics_and_normalize() {
    let mut line = Vec::new();
    let r = record("SELECT 1", None, false);
    write_record_line(&mut line, &r, false, None, FieldMask::all(), &[], true);
    assert_eq!(String::from_utf8(line).unwrap(), "2025-01-15 10:30:28.001,0,0x0001,12,U,1,0x1,App,10.0.0.1,,\"SELECT 1\",,,\n");
    let mut line = Vec::new();
    write_record_line(&mut line, &r, true, None, FieldMask::all(), &[], false);
    assert_eq!(String::from_utf8(line).unwrap(), "2025-01-15 10:30:28.001,0,0x0001,12,U,1,0x1,App,10.0.0.1,,\"SELECT 1\",\n");
}

#[test]
fn test_csv_line_projection() {
    let mut line = Vec::new();
    let r = record("SELECT 1", Some("SEL"), true);
    let mask = FieldMask((1 << 10) | (1 << 4) | (1 << 11) | (1 << 14));
    write_record_line(&mut line, &r, false, Some("n"), mask, &[10, 4, 11, 14], false);
    assert_eq!(String::from_utf8(line).unwrap(), "\"SELECT 1\",U\n");
}

#[test]
fn test_csv_header_field_order() {
    let h = build_header(&[10, 4, 0], true, true);
    assert_eq!(h, b"sql,username,ts\n");
}

#[test]
fn test_csv_header_skips_pm_and_normalized() {
    let all: Vec<usize> = (0..15).collect();
    let h = build_header(&all, false, false);
    assert_eq!(
        String::from_utf8(h).unwrap(),
        "ts,ep,sess_id,thrd_id,username,trx_id,statement,appname,client_ip,tag,sql\n"
    );
    let h = build_header(&all, true, true);
    assert_eq!(
        String::from_utf8(h).unwrap(),
        "ts,ep,sess_id,thrd_id,username,trx_id,statement,appname,client_ip,tag,sql,exec_time_ms,row_count,exec_id,normalized_sql\n"
    );
}

#[test]
fn test_dry_run_constructor() {
    let kind = ExporterKind::dry_run();
    assert_eq!(kind.name(), "dry-run");
}

#[test]
fn test_from_config_sqlite_path() {
    let cfg = Config {
        exporter: ExporterConfig {
            csv: None,
            sqlite: Some(SqliteExporter {
                database_url: "/tmp/test_mod.db".to_string(),
                table_name: "records".to_string(),
                overwrite: true,
                append: false,
                batch_size: 10_000,
            }),
        },
        sqllog: SqllogConfig { path: "sqllogs".to_string() },
        ..Default::default()
    };
    let kind = ExporterKind::from_config(&cfg).unwrap();
    assert_eq!(kind.name(), "SQLite");
    assert!(kind.csv_include_performance_metrics(&cfg));
}

#[test]
fn test_from_config_no_exporters_error() {
    let cfg = Config {
        exporter: ExporterConfig { csv: None, sqlite: None },
        sqllog: SqllogConfig { path: "sqllogs".to_string() },
        ..Default::default()
    };
    let result = ExporterKind::from_config(&cfg);
    assert!(result.is_err());
}

#[test]
fn test_from_config_prefers_csv() {
    let mut cfg = Config::default();
    cfg.exporter = ExporterConfig {
        csv: Some(CsvExporter { include_performance_metrics: false, ..CsvExporter::default() }),
        sqlite: Some(SqliteExporter::default()),
    };
    let kind = ExporterKind::from_config(&cfg).unwrap();
    assert_eq!(kind.name(), "CSV");
    assert!(!kind.csv_include_performance_metrics(&cfg));
}

#[test]
fn test_companion_header_line() {
    assert_eq!(
        companion_header_line(),
        "template_key,count,avg_us,min_us,max_us,p50_us,p95_us,p99_us,first_seen,last_seen\n"
    );
}
