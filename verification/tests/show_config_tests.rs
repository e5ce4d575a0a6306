use sqllog2db::config::{Config, ExporterConfig, SqliteExporter};
use sqllog2db::features::{FeaturesConfig, ReplaceParametersConfig};
use sqllog2db::filters::FiltersFeature;
use sqllog2db::show_config::{show_config_lines, ShowLine};

fn entries(lines: &[ShowLine]) -> Vec<(String, String, bool)> {
    lines
        .iter()
        .filter_map(|l| match l {
            ShowLine::Entry { key, value, changed } => Some((key.clone(), value.clone(), *changed)),
            _ => None,
        })
        .collect()
}

fn sections(lines: &[ShowLine]) -> Vec<String> {
    lines
        .iter()
        .filter_map(|l| match l {
            ShowLine::Section(s) => Some(s.clone()),
            _ => None,
        })
        .collect()
}

fn find(lines: &[ShowLine], key: &str) -> (String, bool) {
    let e = entries(lines);
    let (_, v, c) = e.into_iter().find(|(k, _, _)| k == key).expect("key listed");
    (v, c)
}

#[test]
fn test_handle_show_config_default_does_not_panic() {
    let cfg = Config::default();
    let lines = show_config_lines(&cfg, false);
    assert_eq!(sections(&lines), vec!["[sqllog]", "[logging]", "[exporter.csv]"]);
    assert!(entries(&lines).iter().all(|(_, _, c)| !c));
    assert_eq!(find(&lines, "retention_days"), ("7".to_string(), false));
}

#[test]
fn test_handle_show_config_diff_no_changes() {
    let cfg = Config::default();
    let lines = show_config_lines(&cfg, true);
    assert!(entries(&lines).iter().all(|(_, _, c)| !c));
}

#[test]
fn test_handle_show_config_diff_with_changes() {
    let mut cfg = Config::default();
    cfg.sqllog.path = "/custom/logs".to_string();
    cfg.logging.level = "debug".to_string();
    let lines = show_config_lines(&cfg, true);
    assert_eq!(find(&lines, "path"), ("/custom/logs".to_string(), true));
    assert_eq!(find(&lines, "level"), ("debug".to_string(), true));
    assert_eq!(find(&lines, "file"), ("logs/sqllog2db.log".to_string(), false));
}

#[test]
fn test_handle_show_config_with_sqlite_exporter() {
    let cfg = Config {
        exporter: ExporterConfig {
            csv: None,
            sqlite: Some(SqliteExporter {
                database_url: "out.db".to_string(),
                table_name: "logs".to_string(),
                overwrite: false,
                append: true,
                batch_size: 10_000,
            }),
        },
        ..Default::default()
    };
    let lines = show_config_lines(&cfg, false);
    assert_eq!(sections(&lines), vec!["[sqllog]", "[logging]", "[exporter.sqlite]"]);
    assert_eq!(find(&lines, "database_url"), ("out.db".to_string(), false));
    assert_eq!(find(&lines, "append"), ("true".to_string(), false));
}

#[test]
fn test_handle_show_config_with_sqlite_diff() {
    let cfg = Config {
        exporter: ExporterConfig { csv: None, sqlite: Some(SqliteExporter::default()) },
        ..Default::default()
    };
    let lines = show_config_lines(&cfg, true);
    let e = entries(&lines);
    for key in ["database_url", "table_name", "overwrite", "append"] {
        assert!(e.iter().any(|(k, _, c)| k == key && *c), "{key} should be marked");
    }
}

#[test]
fn test_handle_show_config_with_replace_parameters() {
    let cfg = Config {
        features: FeaturesConfig {
            replace_parameters: Some(ReplaceParametersConfig { enable: true, placeholders: vec!["?".to_string()] }),
            ..FeaturesConfig::default()
        },
        ..Default::default()
    };
    let lines = show_config_lines(&cfg, false);
    assert!(sections(&lines).contains(&"[features.replace_parameters]".to_string()));
    assert_eq!(find(&lines, "enable"), ("true".to_string(), false));
    assert_eq!(find(&lines, "placeholders"), ("[\"?\"]".to_string(), false));
}

#[test]
fn test_handle_show_config_with_filters() {
    let mut f = FiltersFeature { enable: true, ..Default::default() };
    f.meta.trxids = Some(vec!["1".to_string(), "2".to_string()]);
    f.meta.usernames = Some(vec!["alice".to_string(), "bob".to_string()]);
    let cfg = Config { features: FeaturesConfig { filters: Some(f), ..FeaturesConfig::default() }, ..Default::default() };
    let lines = show_config_lines(&cfg, false);
    assert!(sections(&lines).contains(&"[features.filters]".to_string()));
    assert_eq!(find(&lines, "trxids"), ("2 entries".to_string(), false));
    assert_eq!(find(&lines, "usernames"), ("alice, bob".to_string(), false));
    assert!(matches!(lines.last(), Some(ShowLine::Blank)));
}
