use sqllog2db::templates::{TemplateAggregator, TemplateEntry, TemplateStats};

fn quantile(e: &TemplateEntry, q: f64) -> u64 {
    e.histogram().inner.value_at_quantile(q)
}

fn summary(e: &TemplateEntry) -> TemplateStats {
    e.stats(quantile(e, 0.50), quantile(e, 0.95), quantile(e, 0.99))
}

fn finalize_stats(agg: TemplateAggregator) -> Vec<TemplateStats> {
    agg.finalize().iter().map(summary).collect()
}

#[test]
fn test_observe_single() {
    let mut agg = TemplateAggregator::new();
    agg.observe("SELECT * FROM t WHERE id = ?", 500, "2025-01-15 10:00:00");
    let stats = finalize_stats(agg);
    assert_eq!(stats.len(), 1);
    assert_eq!(stats[0].count, 1);
    assert_eq!(stats[0].template_key, "SELECT * FROM t WHERE id = ?");
}

#[test]
fn test_finalize_percentiles() {
    let mut agg = TemplateAggregator::new();
    let key = "SELECT * FROM t";
    for i in 1u64..=100 {
        agg.observe(key, i, "2025-01-15 10:00:00");
    }
    let stats = finalize_stats(agg);
    assert_eq!(stats.len(), 1);
    let s = &stats[0];
    assert_eq!(s.count, 100);
    assert!(s.p50_us >= 48 && s.p50_us <= 52, "p50_us={}", s.p50_us);
    assert!(s.p99_us >= 97 && s.p99_us <= 100, "p99_us={}", s.p99_us);
    assert_eq!(s.min_us, 1);
    assert_eq!(s.max_us, 100);
}

#[test]
fn test_merge_equivalent() {
    let key = "SELECT 1";
    let ts = "2025-01-15 10:00:00";

    let mut agg1 = TemplateAggregator::new();
    agg1.observe(key, 100, ts);
    agg1.observe(key, 200, ts);

    let mut agg2 = TemplateAggregator::new();
    agg2.observe(key, 300, ts);
    agg2.observe(key, 400, ts);

    agg1.merge(agg2);
    let stats = finalize_stats(agg1);
    assert_eq!(stats.len(), 1);
    assert_eq!(stats[0].count, 4);
    assert!(stats[0].min_us >= 99 && stats[0].min_us <= 101, "min_us={}", stats[0].min_us);
    assert!(stats[0].max_us >= 396 && stats[0].max_us <= 404, "max_us={}", stats[0].max_us);
}

#[test]
fn test_merge_timestamps() {
    let key = "SELECT 1";

    let mut agg1 = TemplateAggregator::new();
    agg1.observe(key, 100, "2025-01-15 10:00:00");
    agg1.observe(key, 200, "2025-01-15 12:00:00");

    let mut agg2 = TemplateAggregator::new();
    agg2.observe(key, 300, "2025-01-15 08:00:00");
    agg2.observe(key, 400, "2025-01-15 14:00:00");

    agg1.merge(agg2);
    let stats = finalize_stats(agg1);
    assert_eq!(stats.len(), 1);
    assert_eq!(stats[0].first_seen, "2025-01-15 08:00:00");
    assert_eq!(stats[0].last_seen, "2025-01-15 14:00:00");
}

#[test]
fn test_observe_first_last_seen() {
    let key = "SELECT 1";
    let mut agg = TemplateAggregator::new();
    agg.observe(key, 100, "2025-01-15 10:00:00");
    agg.observe(key, 200, "2025-01-14 09:00:00");
    agg.observe(key, 300, "2025-01-16 11:00:00");
    let stats = finalize_stats(agg);
    assert_eq!(stats[0].first_seen, "2025-01-14 09:00:00");
    assert_eq!(stats[0].last_seen, "2025-01-16 11:00:00");
}

#[test]
fn test_finalize_sorts_by_count_desc() {
    let mut agg = TemplateAggregator::new();
    let ts = "2025-01-15 10:00:00";

    agg.observe("key_a", 100, ts);
    agg.observe("key_a", 200, ts);
    for _ in 0..5 {
        agg.observe("key_b", 300, ts);
    }
    agg.observe("key_c", 400, ts);

    let stats = finalize_stats(agg);
    assert_eq!(stats.len(), 3);
    assert_eq!(stats[0].template_key, "key_b");
    assert_eq!(stats[0].count, 5);
    assert_eq!(stats[1].template_key, "key_a");
    assert_eq!(stats[1].count, 2);
    assert_eq!(stats[2].template_key, "key_c");
    assert_eq!(stats[2].count, 1);
}

#[test]
fn test_iter_chart_entries_empty() {
    let agg = TemplateAggregator::new();
    let entries = agg.iter_chart_entries();
    assert!(entries.is_empty());
}

#[test]
fn test_iter_chart_entries_single_key() {
    let mut agg = TemplateAggregator::new();
    let key = "SELECT * FROM t WHERE id = ?";
    let ts = "2025-01-15 10:00:00";
    agg.observe(key, 100, ts);
    agg.observe(key, 200, ts);
    agg.observe(key, 300, ts);

    let entries = agg.iter_chart_entries();
    assert_eq!(entries.len(), 1);
    assert_eq!(entries[0].key, key);
    assert_eq!(entries[0].count, 3);
    assert_eq!(entries[0].histogram.inner.len(), 3);
}

#[test]
fn test_iter_chart_entries_sort_order() {
    let mut agg = TemplateAggregator::new();
    let ts = "2025-01-15 10:00:00";

    agg.observe("key_a", 100, ts);
    agg.observe("key_a", 200, ts);
    for _ in 0..5 {
        agg.observe("key_b", 300, ts);
    }
    agg.observe("key_c", 400, ts);

    let entries = agg.iter_chart_entries();
    assert_eq!(entries.len(), 3);
    assert_eq!(entries[0].key, "key_b");
    assert_eq!(entries[0].count, 5);
    assert_eq!(entries[1].key, "key_a");
    assert_eq!(entries[1].count, 2);
    assert_eq!(entries[2].key, "key_c");
    assert_eq!(entries[2].count, 1);
}

#[test]
fn test_observe_clamps_execution_time() {
    let mut agg = TemplateAggregator::new();
    agg.observe("SELECT 0", 0, "2025-01-15 10:00:00");
    agg.observe("SELECT 0", 90_000_000, "2025-01-15 10:00:01");
    let entries = agg.finalize();
    assert_eq!(entries.len(), 1);
    assert_eq!(entries[0].count(), 2);
    assert_eq!(entries[0].min_us(), 1);
    assert!(entries[0].max_us() >= 59_000_000 && entries[0].max_us() <= 60_500_000);
}

#[test]
fn test_ties_ordered_by_key() {
    let mut agg = TemplateAggregator::new();
    let ts = "2025-01-15 10:00:00";
    agg.observe("zeta", 10, ts);
    agg.observe("alpha", 10, ts);
    agg.observe("mid", 10, ts);
    let keys: Vec<String> = agg.finalize().iter().map(|e| e.key.clone()).collect();
    assert_eq!(keys, vec!["alpha".to_string(), "mid".to_string(), "zeta".to_string()]);
}

#[test]
fn test_merge_matches_single_pass() {
    let obs = [
        ("a", 10u64, "2025-01-15 10:00:03"),
        ("b", 20, "2025-01-15 10:00:01"),
        ("a", 30, "2025-01-15 10:00:00"),
        ("c", 40, "2025-01-15 10:00:05"),
        ("b", 50, "2025-01-15 10:00:09"),
    ];
    let mut whole = TemplateAggregator::new();
    for (k, v, ts) in obs.iter() {
        whole.observe(k, *v, ts);
    }
    let mut left = TemplateAggregator::new();
    let mut right = TemplateAggregator::new();
    for (k, v, ts) in obs[..2].iter() {
        left.observe(k, *v, ts);
    }
    for (k, v, ts) in obs[2..].iter() {
        right.observe(k, *v, ts);
    }
    left.merge(right);
    let a: Vec<(String, u64, u64, u64, String, String)> = finalize_stats(whole)
        .into_iter()
        .map(|s| (s.template_key, s.count, s.min_us, s.max_us, s.first_seen, s.last_seen))
        .collect();
    let b: Vec<(String, u64, u64, u64, String, String)> = finalize_stats(left)
        .into_iter()
        .map(|s| (s.template_key, s.count, s.min_us, s.max_us, s.first_seen, s.last_seen))
        .collect();
    assert_eq!(a, b);
    assert_eq!(a[0].0, "a");
    assert_eq!(a[0].4, "2025-01-15 10:00:00");
    assert_eq!(a[0].5, "2025-01-15 10:00:03");
}

#[test]
fn test_finalize_counts_sum_to_observations() {
    let mut agg = TemplateAggregator::new();
    let keys = ["a", "b", "a", "c", "b", "a", "d"];
    for (i, k) in keys.iter().enumerate() {
        agg.observe(k, 10 * (i as u64 + 1), "2025-01-15 10:00:00");
    }
    let total: u64 = agg.finalize().iter().map(|e| e.count()).sum();
    assert_eq!(total, keys.len() as u64);
}
