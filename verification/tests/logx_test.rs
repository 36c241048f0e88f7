use xyz_rust::logx::{debugf, enabled, errorf, infof, parse_level, set_level, warnf, Level, LogState};

#[test]
fn parse_level_forms() {
    assert_eq!(parse_level("debug").unwrap(), Level::Debug);
    assert_eq!(parse_level("INFO").unwrap(), Level::Info);
    assert_eq!(parse_level("warning").unwrap(), Level::Warn);
    assert_eq!(parse_level("error").unwrap(), Level::Error);
    assert!(parse_level("verbose").is_err());
    assert!(parse_level("").is_err());
}

#[test]
fn set_level_and_enabled() {
    let mut st = LogState::new();
    set_level(&mut st, Level::Error);
    assert!(!enabled(&st, Level::Info));
    assert!(enabled(&st, Level::Error));
    set_level(&mut st, Level::Debug);
    assert!(enabled(&st, Level::Info));
}

#[test]
fn unset_keeps_level_and_lines_carry_prefix() {
    let mut st = LogState::new();
    assert_eq!(st.level(), Level::Info);
    set_level(&mut st, Level::Unset);
    assert_eq!(st.level(), Level::Info);
    assert_eq!(debugf(&st, "x"), None);
    assert_eq!(infof(&st, "up").as_deref(), Some("xyz[info]: up"));
    assert_eq!(warnf(&st, "w").as_deref(), Some("xyz[warn]: w"));
    set_level(&mut st, Level::Error);
    assert_eq!(warnf(&st, "w"), None);
    assert_eq!(errorf(&st, "e").as_deref(), Some("xyz[error]: e"));
}

#[test]
fn bad_level_message() {
    let e = parse_level(" loud ").unwrap_err();
    assert_eq!(e.to_text(), "unknown log level \" loud \" (want debug|info|warn|error)");
    assert_eq!(parse_level("  Warn\t").unwrap(), Level::Warn);
}

#[test]
fn level_follows_last_set_level() {
    let mut st = xyz_rust::logx::LogState::new();
    for l in [Level::Debug, Level::Unset, Level::Error, Level::Unset] {
        xyz_rust::logx::set_level(&mut st, l);
    }
    assert_eq!(st.level(), Level::Error);
    assert!(!xyz_rust::logx::enabled(&st, Level::Warn));
    assert!(xyz_rust::logx::enabled(&st, Level::Error));
}
