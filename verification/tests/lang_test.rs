use xyz_rust::lang;
use xyz_rust::lang::{t, tf, LangState, XyzLang};

#[test]
fn parse_and_default() {
    assert_eq!(XyzLang::parse("en"), Some(XyzLang::En));
    assert_eq!(XyzLang::parse("zh-CN"), Some(XyzLang::ZhCn));
    assert_eq!(XyzLang::parse("fr"), None);
    assert_eq!(XyzLang::default(), XyzLang::En);
}

#[test]
fn catalog_and_overrides() {
    let mut st = LangState::new();
    lang::set(&mut st, XyzLang::En, None);
    assert!(t(&st, "overview.usage_line").starts_with("Usage ("));
    lang::set(&mut st, XyzLang::ZhCn, None);
    assert!(t(&st, "overview.usage_line").starts_with("用法（"));
    lang::set(
        &mut st,
        XyzLang::En,
        Some(vec![("help.help_flag".to_string(), "show me help".to_string())]),
    );
    assert_eq!(t(&st, "help.help_flag"), "show me help");
    assert_eq!(t(&st, "no.such.key"), "no.such.key");
    assert_eq!(
        tf(&st, "warn.mode_disabled", &["serve", "HTTP"]),
        "serve mode was disabled (Config.Capabilities.NoHTTP)"
    );
    lang::set(&mut st, XyzLang::En, None);
    assert_eq!(lang::lang(&st), XyzLang::En);
}

#[test]
fn detect_from_environment_values() {
    assert_eq!(XyzLang::detect(Some("zh_CN.UTF-8"), None), XyzLang::ZhCn);
    assert_eq!(XyzLang::detect(Some(""), Some("ZH_TW")), XyzLang::ZhCn);
    assert_eq!(XyzLang::detect(Some("en_US"), Some("zh_CN")), XyzLang::En);
    assert_eq!(XyzLang::detect(None, None), XyzLang::En);
    assert_eq!(XyzLang::ZhCn.as_str(), "zh-CN");
}

#[test]
fn tf_replaces_every_placeholder() {
    let st = LangState::new();
    assert_eq!(
        tf(&st, "cli.err_positional_count", &["p x", "1", "2", "3"]),
        "p x: positional argument count mismatch (want 1 to 2, got 3)"
    );
    let ov = LangState { lang: XyzLang::En, overrides: Some(vec![
        ("k".to_string(), "{0}-{0}".to_string()),
        ("k".to_string(), "last {0}".to_string()),
    ]) };
    assert_eq!(tf(&ov, "k", &["a"]), "last a");
}
