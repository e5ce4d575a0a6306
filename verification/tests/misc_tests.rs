use sqllog2db::charts::{latency_hist_file_name, sanitize_filename, truncate_label};
use sqllog2db::color::{bold, cyan, dim, green, red, yellow};
use sqllog2db::digest::SortBy;
use sqllog2db::error::{exit_code_for, ConfigError, Error, ExportError, FileError, ParserError, UpdateError};
use sqllog2db::error::{EXIT_CONFIG, EXIT_EXPORT, EXIT_INTERRUPTED, EXIT_IO};
use sqllog2db::scatter::SqlType;

#[test]
fn test_sanitize_filename_ascii_alphanumeric() {
    assert_eq!(sanitize_filename("SELECT_count"), "SELECT_count");
}

#[test]
fn test_sanitize_filename_spaces_and_special() {
    let result = sanitize_filename("SELECT count(*) FROM t");
    assert_eq!(result, "SELECT_count____FROM_t");
}

#[test]
fn test_sanitize_filename_truncate_80() {
    let long_key = "a".repeat(100);
    let result = sanitize_filename(&long_key);
    assert_eq!(result.len(), 80);
}

#[test]
fn test_sanitize_filename_non_ascii() {
    let result = sanitize_filename("查询_SELECT");
    assert!(result.starts_with("__"));
    assert!(result.contains("SELECT"));
}

#[test]
fn test_sanitize_filename_hyphen_preserved() {
    assert_eq!(sanitize_filename("key-name"), "key-name");
}

#[test]
fn test_latency_hist_file_name() {
    assert_eq!(latency_hist_file_name("SELECT ?"), "latency_histogram_SELECT__.svg");
}

#[test]
fn test_sort_by_parse_count() {
    assert_eq!(SortBy::parse("count"), Some(SortBy::Count));
}

#[test]
fn test_sort_by_parse_exec() {
    assert_eq!(SortBy::parse("exec"), Some(SortBy::Exec));
}

#[test]
fn test_sort_by_parse_invalid() {
    assert_eq!(SortBy::parse("unknown"), None);
    assert_eq!(SortBy::parse(""), None);
}

#[test]
fn test_green_contains_input() {
    let result = green("hello", false);
    assert!(result.contains("hello"));
    assert_eq!(green("hello", true), "\x1b[32mhello\x1b[0m");
}

#[test]
fn test_yellow_contains_input() {
    let result = yellow("world", false);
    assert!(result.contains("world"));
    assert_eq!(yellow("world", true), "\x1b[33mworld\x1b[0m");
}

#[test]
fn test_cyan_contains_input() {
    let result = cyan("foo", false);
    assert!(result.contains("foo"));
    assert_eq!(cyan("foo", true), "\x1b[36mfoo\x1b[0m");
}

#[test]
fn test_red_contains_input() {
    let result = red("error_msg", false);
    assert!(result.contains("error_msg"));
    assert_eq!(red("e", true), "\x1b[31me\x1b[0m");
}

#[test]
fn test_bold_contains_input() {
    let result = bold("important", false);
    assert!(result.contains("important"));
    assert_eq!(bold("b", true), "\x1b[1mb\x1b[0m");
}

#[test]
fn test_dim_contains_input() {
    let result = dim("quiet", false);
    assert!(result.contains("quiet"));
    assert_eq!(dim("d", true), "\x1b[2md\x1b[0m");
}

#[test]
fn test_color_functions_with_numeric_display() {
    let result = green(&42.to_string(), false);
    assert!(result.contains("42"));
}

#[test]
fn test_exit_code_config_error() {
    let e = Error::Config(ConfigError::NoExporters);
    assert_eq!(exit_code_for(&e), EXIT_CONFIG);
}

#[test]
fn test_exit_code_file_error() {
    let e = Error::File(FileError::CreateDirectoryFailed { path: "/tmp".into(), reason: "test".into() });
    assert_eq!(exit_code_for(&e), EXIT_IO);
}

#[test]
fn test_exit_code_parser_error() {
    let e = Error::Parser(ParserError::PathNotFound { path: "/tmp".into() });
    assert_eq!(exit_code_for(&e), EXIT_IO);
}

#[test]
fn test_exit_code_io_error() {
    let e = Error::Io(std::io::Error::other("test io"));
    assert_eq!(exit_code_for(&e), EXIT_IO);
}

#[test]
fn test_exit_code_export_error() {
    let e = Error::Export(ExportError::DatabaseFailed { reason: "test".into() });
    assert_eq!(exit_code_for(&e), EXIT_EXPORT);
}

#[test]
fn test_exit_code_interrupted() {
    assert_eq!(exit_code_for(&Error::Interrupted), EXIT_INTERRUPTED);
}

#[test]
fn test_exit_code_update_error() {
    let e = Error::Update(UpdateError::UpdateFailed("test".into()));
    assert_eq!(exit_code_for(&e), 1);
}

#[test]
fn test_sql_type_from_body() {
    assert_eq!(SqlType::from_body("  [SEL] SELECT 1"), Some(SqlType::SEL));
    assert_eq!(SqlType::from_body("[INS] INSERT"), Some(SqlType::INS));
    assert_eq!(SqlType::from_body("[DEL]x"), Some(SqlType::DEL));
    assert_eq!(SqlType::from_body("\t[UPD] u"), Some(SqlType::UPD));
    assert_eq!(SqlType::from_body("[DDL]"), Some(SqlType::DDL));
    assert_eq!(SqlType::from_body("SELECT 1"), None);
    assert_eq!(SqlType::from_body(""), None);
}

#[test]
fn test_truncate_label_short() {
    assert_eq!(truncate_label("SELECT 1", 40), "SELECT 1");
}

#[test]
fn test_truncate_label_exact_40() {
    let s = "a".repeat(40);
    assert_eq!(truncate_label(&s, 40), s);
}

#[test]
fn test_truncate_label_41_chars() {
    let s = "a".repeat(41);
    let result = truncate_label(&s, 40);
    let char_count = result.chars().count();
    assert_eq!(char_count, 40);
    assert!(result.ends_with('…'));
}

#[test]
fn test_truncate_label_unicode() {
    let s = "中文".repeat(25);
    let result = truncate_label(&s, 40);
    assert!(result.chars().count() <= 40);
    assert!(result.ends_with('…'));
}

#[test]
fn test_truncate_label_long() {
    let long_name = "a".repeat(25);
    let result = truncate_label(&long_name, 20);
    assert!(result.chars().count() <= 20);
    assert!(result.ends_with('…'));
}

#[test]
fn test_truncate_label_keeps_prefix() {
    assert_eq!(truncate_label("abcdef", 4), "abc…");
    assert_eq!(truncate_label("", 0), "");
}
