use sqllog2db::lang::{detect, from_env_values, Lang};

#[test]
fn test_lang_parse_zh_variants() {
    assert_eq!(Lang::parse("zh"), Some(Lang::Zh));
    assert_eq!(Lang::parse("ZH"), Some(Lang::Zh));
    assert_eq!(Lang::parse("zh_cn"), Some(Lang::Zh));
    assert_eq!(Lang::parse("zh_tw"), Some(Lang::Zh));
    assert_eq!(Lang::parse("zh_hk"), Some(Lang::Zh));
    assert_eq!(Lang::parse("chinese"), Some(Lang::Zh));
}

#[test]
fn test_lang_parse_en_variants() {
    assert_eq!(Lang::parse("en"), Some(Lang::En));
    assert_eq!(Lang::parse("EN"), Some(Lang::En));
    assert_eq!(Lang::parse("en_us"), Some(Lang::En));
    assert_eq!(Lang::parse("en_gb"), Some(Lang::En));
    assert_eq!(Lang::parse("english"), Some(Lang::En));
}

#[test]
fn test_lang_parse_invalid() {
    assert_eq!(Lang::parse("fr"), None);
    assert_eq!(Lang::parse(""), None);
    assert_eq!(Lang::parse("ja"), None);
}

#[test]
fn test_detect_with_lang_flag_zh() {
    let args: Vec<String> = vec!["--lang".into(), "zh".into()];
    assert_eq!(detect(&args, Lang::En), Lang::Zh);
}

#[test]
fn test_detect_with_lang_flag_en() {
    let args: Vec<String> = vec!["--lang".into(), "en".into()];
    assert_eq!(detect(&args, Lang::Zh), Lang::En);
}

#[test]
fn test_detect_with_lang_equals_form() {
    let args: Vec<String> = vec!["--lang=zh".into()];
    assert_eq!(detect(&args, Lang::En), Lang::Zh);
}

#[test]
fn test_detect_with_invalid_lang_falls_through() {
    let args: Vec<String> = vec!["--lang=invalid".into()];
    let result = detect(&args, Lang::En);
    assert!(result == Lang::En || result == Lang::Zh);
    assert_eq!(detect(&args, Lang::Zh), Lang::Zh);
}

#[test]
fn test_detect_no_args_uses_env() {
    let result = detect(&[], Lang::En);
    assert!(result == Lang::En || result == Lang::Zh);
    assert_eq!(detect(&[], Lang::Zh), Lang::Zh);
}

#[test]
fn test_detect_skips_unrelated_args() {
    let args: Vec<String> = vec!["run".into(), "-c".into(), "config.toml".into()];
    let result = detect(&args, Lang::En);
    assert!(result == Lang::En || result == Lang::Zh);
}

#[test]
fn test_lang_default_is_en() {
    assert_eq!(Lang::default(), Lang::En);
}

#[test]
fn test_from_env_values_prefers_override() {
    assert_eq!(from_env_values(Some("zh"), "en_US.UTF-8"), Lang::Zh);
    assert_eq!(from_env_values(None, "zh_CN.UTF-8"), Lang::Zh);
    assert_eq!(from_env_values(None, "en_US.UTF-8"), Lang::En);
}
