use sqllog2db::features::{
    field_name_at, ChartsConfig, FeaturesConfig, FieldMask, ReplaceParametersConfig, TemplateAnalysisConfig,
    ALL_FIELDS, FIELD_COUNT,
};

#[test]
fn test_placeholder_override_question() {
    let cfg = ReplaceParametersConfig { enable: true, placeholders: vec!["?".into()] };
    assert_eq!(cfg.placeholder_override(), Some(false));
}

#[test]
fn test_placeholder_override_colon() {
    let cfg = ReplaceParametersConfig { enable: true, placeholders: vec![":1".into()] };
    assert_eq!(cfg.placeholder_override(), Some(true));
}

#[test]
fn test_placeholder_override_auto() {
    let cfg = ReplaceParametersConfig { enable: true, placeholders: vec![] };
    assert_eq!(cfg.placeholder_override(), None);
}

#[test]
fn test_placeholder_override_both_is_auto() {
    let cfg = ReplaceParametersConfig { enable: true, placeholders: vec!["?".into(), ":1".into()] };
    assert_eq!(cfg.placeholder_override(), None);
}

#[test]
fn test_placeholder_override_colon_needs_digit() {
    let cfg = ReplaceParametersConfig { enable: true, placeholders: vec![":a".into(), ":".into()] };
    assert_eq!(cfg.placeholder_override(), None);
}

#[test]
fn test_features_config_default() {
    let cfg = FeaturesConfig::default();
    assert!(cfg.filters.is_none());
    assert!(cfg.replace_parameters.is_none());
    assert!(cfg.template_analysis.is_none());
}

#[test]
fn test_charts_config_default_values() {
    let cfg = ChartsConfig::default();
    assert_eq!(cfg.output_dir, "charts/");
    assert_eq!(cfg.top_n, 10);
    assert!(cfg.frequency_bar);
    assert!(cfg.latency_hist);
    assert!(cfg.trend_line);
    assert!(cfg.user_pie);
}

#[test]
fn test_features_config_default_charts_is_none() {
    let cfg = FeaturesConfig::default();
    assert!(cfg.charts.is_none());
}

#[test]
fn test_template_analysis_config_default() {
    let cfg = TemplateAnalysisConfig::default();
    assert!(!cfg.enabled);
}

#[test]
fn test_replace_parameters_config_default() {
    let cfg = ReplaceParametersConfig::default();
    assert!(cfg.enable);
    assert!(cfg.placeholders.is_empty());
}

#[test]
fn test_ordered_field_indices_none_returns_all() {
    let cfg = FeaturesConfig::default();
    let indices = cfg.ordered_field_indices();
    assert_eq!(indices, (0..15_usize).collect::<Vec<_>>());
}

#[test]
fn test_ordered_field_indices_empty_equals_all() {
    let cfg = FeaturesConfig { fields: Some(vec![]), ..Default::default() };
    let indices = cfg.ordered_field_indices();
    assert_eq!(indices.len(), 15);
    assert_eq!(indices, (0..15_usize).collect::<Vec<_>>());
}

#[test]
fn test_ordered_field_indices_preserves_user_order() {
    let cfg = FeaturesConfig {
        fields: Some(vec!["sql".into(), "username".into(), "ts".into()]),
        ..Default::default()
    };
    assert_eq!(cfg.ordered_field_indices(), vec![10_usize, 4, 0]);
}

#[test]
fn test_ordered_field_indices_single_field() {
    let cfg = FeaturesConfig { fields: Some(vec!["normalized_sql".into()]), ..Default::default() };
    assert_eq!(cfg.ordered_field_indices(), vec![14_usize]);
}

#[test]
fn test_ordered_field_indices_all_fields_reversed() {
    let reversed_names: Vec<String> = (0..FIELD_COUNT).rev().map(|i| field_name_at(i).to_string()).collect();
    let cfg = FeaturesConfig { fields: Some(reversed_names), ..Default::default() };
    let expected: Vec<usize> = (0..15).rev().collect();
    assert_eq!(cfg.ordered_field_indices(), expected);
}

#[test]
fn test_ordered_field_indices_skips_unknown() {
    let cfg = FeaturesConfig { fields: Some(vec!["bogus".into(), "tag".into()]), ..Default::default() };
    assert_eq!(cfg.ordered_field_indices(), vec![9_usize]);
}

#[test]
fn test_field_mask_from_names() {
    let m = FieldMask::from_names(&["ts".to_string(), "sql".to_string(), "ts".to_string()]).unwrap();
    assert_eq!(m, FieldMask((1 << 0) | (1 << 10)));
    assert!(m.is_active(0));
    assert!(m.is_active(10));
    assert!(!m.is_active(1));
    assert!(!m.is_active(15));
    assert!(!m.includes_normalized_sql());
    assert_eq!(FieldMask::from_names(&["ts".to_string(), "nope".to_string()]), Err("unknown field: 'nope'".to_string()));
}

#[test]
fn test_field_mask_all_and_default() {
    let all = FieldMask::all();
    assert_eq!(all.0, ALL_FIELDS);
    assert_eq!(FieldMask::default(), all);
    assert!(all.includes_normalized_sql());
    for i in 0..15 {
        assert!(all.is_active(i));
    }
}

#[test]
fn test_features_field_mask() {
    let cfg = FeaturesConfig::default();
    assert_eq!(cfg.field_mask(), FieldMask::all());
    let cfg = FeaturesConfig { fields: Some(vec!["normalized_sql".into()]), ..Default::default() };
    assert_eq!(cfg.field_mask(), FieldMask(1 << 14));
    let cfg = FeaturesConfig { fields: Some(vec!["bogus".into()]), ..Default::default() };
    assert_eq!(cfg.field_mask(), FieldMask::all());
}
