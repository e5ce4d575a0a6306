use sqllog2db::slow::{SlowEntry, SlowTop};
use sqllog2db::stats::{make_bar, parse_group_fields, Bucket, GroupBy, BAR_WIDTH};

#[test]
fn test_group_by_from_str_valid() {
    assert_eq!(GroupBy::from_str("user"), Some(GroupBy::User));
    assert_eq!(GroupBy::from_str("app"), Some(GroupBy::App));
    assert_eq!(GroupBy::from_str("ip"), Some(GroupBy::Ip));
}

#[test]
fn test_group_by_from_str_invalid() {
    assert_eq!(GroupBy::from_str("unknown"), None);
    assert_eq!(GroupBy::from_str(""), None);
}

#[test]
fn test_group_by_label() {
    assert_eq!(GroupBy::User.label(), "User");
    assert_eq!(GroupBy::App.label(), "App");
    assert_eq!(GroupBy::Ip.label(), "IP");
}

#[test]
fn test_bucket_from_str_valid() {
    assert_eq!(Bucket::from_str("hour"), Some(Bucket::Hour));
    assert_eq!(Bucket::from_str("minute"), Some(Bucket::Minute));
}

#[test]
fn test_bucket_from_str_invalid() {
    assert_eq!(Bucket::from_str("day"), None);
    assert_eq!(Bucket::from_str(""), None);
}

#[test]
fn test_bucket_label() {
    assert_eq!(Bucket::Hour.label(), "hour");
    assert_eq!(Bucket::Minute.label(), "minute");
}

#[test]
fn test_bucket_truncate_hour() {
    let ts = "2025-01-15 10:30:28";
    assert_eq!(Bucket::Hour.truncate(ts), "2025-01-15 10");
}

#[test]
fn test_bucket_truncate_minute() {
    let ts = "2025-01-15 10:30:28";
    assert_eq!(Bucket::Minute.truncate(ts), "2025-01-15 10:30");
}

#[test]
fn test_bucket_truncate_short_ts() {
    let ts = "2025";
    assert_eq!(Bucket::Hour.truncate(ts), "2025");
}

#[test]
fn test_make_bar_zero_max() {
    assert_eq!(make_bar(0, 0), "");
}

#[test]
fn test_make_bar_full() {
    let bar = make_bar(10, 10);
    assert_eq!(bar.chars().count(), BAR_WIDTH);
}

#[test]
fn test_make_bar_half() {
    let bar = make_bar(5, 10);
    assert_eq!(bar.chars().count(), BAR_WIDTH / 2);
}

#[test]
fn test_make_bar_count_over_max_is_full() {
    assert_eq!(make_bar(30, 10), "█".repeat(BAR_WIDTH));
    assert_eq!(make_bar(1, 3), "█".repeat(6));
}

#[test]
fn test_parse_group_fields_empty() {
    let result = parse_group_fields(&[]);
    assert_eq!(result, Some(vec![]));
}

#[test]
fn test_parse_group_fields_valid() {
    let result = parse_group_fields(&["user".to_string(), "ip".to_string()]);
    assert_eq!(result, Some(vec![GroupBy::User, GroupBy::Ip]));
}

#[test]
fn test_parse_group_fields_duplicate_deduped() {
    let result = parse_group_fields(&["app".to_string(), "app".to_string()]);
    assert_eq!(result, Some(vec![GroupBy::App]));
}

#[test]
fn test_parse_group_fields_unknown_returns_none() {
    let result = parse_group_fields(&["bad".to_string()]);
    assert!(result.is_none());
    let result = parse_group_fields(&["user".to_string(), "bad".to_string(), "ip".to_string()]);
    assert!(result.is_none());
}

fn slow(ms: f32) -> SlowEntry {
    SlowEntry { exec_time_bits: ms.to_bits(), ts: "t".into(), sql_snippet: "s".into(), file_name: "f".into() }
}

#[test]
fn test_slow_entry_exec_time_ms_roundtrip() {
    let val = 123.45_f32;
    let entry = slow(val);
    assert!((f32::from_bits(entry.exec_time_bits) - val).abs() < 1e-4);
}

#[test]
fn test_slow_entry_ordering() {
    let small = slow(1.0);
    let large = slow(100.0);
    assert!(small < large);
    assert_eq!(small.partial_cmp(&large), Some(std::cmp::Ordering::Less));
    assert_eq!(large.order(&small), std::cmp::Ordering::Greater);
}

fn kept_times(t: SlowTop) -> Vec<f32> {
    let mut v: Vec<f32> = t.into_entries().iter().map(|e| f32::from_bits(e.exec_time_bits)).collect();
    v.sort_by(|a, b| b.partial_cmp(a).unwrap());
    v
}

#[test]
fn test_slow_top_keeps_slowest() {
    let mut top = SlowTop::new(2);
    for ms in [5.0_f32, 1.0, 7.0, 3.0, 6.5] {
        if top.wants(ms.to_bits()) {
            top.offer(slow(ms));
        }
    }
    assert_eq!(top.len(), 2);
    assert_eq!(kept_times(top), vec![7.0, 6.5]);
}

#[test]
fn test_slow_top_zero_keeps_nothing() {
    let mut top = SlowTop::new(0);
    assert!(!top.wants(slow(9.0).exec_time_bits));
    top.offer(slow(9.0));
    assert_eq!(top.len(), 0);
}

#[test]
fn test_slow_top_equal_time_not_taken_when_full() {
    let mut top = SlowTop::new(1);
    top.offer(slow(4.0));
    assert!(!top.wants(4.0_f32.to_bits()));
    top.offer(slow(4.0));
    top.offer(slow(2.0));
    assert_eq!(kept_times(top), vec![4.0]);
}
