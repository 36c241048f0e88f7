use std::time::Duration;
use xyz_rust::cli::app::{cli_version, set_cli_version};
use xyz_rust::config::Config;
use xyz_rust::field::spec_depth_message;
use xyz_rust::logx::Level;
use xyz_rust::mcp::{impl_name, Options};
use xyz_rust::scalar::{email_ok, format_duration, parse_duration};
use xyz_rust::version::VersionCell;

#[test]
fn duration_rendering() {
    assert_eq!(format_duration(Duration::from_secs(0)), "0s");
    assert_eq!(format_duration(Duration::from_millis(300)), "300ms");
    assert_eq!(format_duration(Duration::from_micros(1500)), "1.5ms");
    assert_eq!(format_duration(Duration::from_nanos(1)), "1ns");
    assert_eq!(format_duration(Duration::from_nanos(1500)), "1.5µs");
    assert_eq!(format_duration(Duration::from_secs(60)), "1m0s");
    assert_eq!(format_duration(Duration::from_secs(3600)), "1h0m0s");
    assert_eq!(format_duration(Duration::from_millis(1500)), "1.5s");
    assert_eq!(format_duration(Duration::from_secs(3723) + Duration::from_millis(500)), "1h2m3.5s");
    assert_eq!(format_duration(Duration::from_secs(120)), "2m0s");
}

#[test]
fn email_shapes() {
    assert!(email_ok("a@b.co"));
    assert!(!email_ok("a@b"));
    assert!(!email_ok("@b.co"));
    assert!(!email_ok("a@@b.co"));
    assert!(!email_ok("a b@c.de"));
    assert!(!email_ok("a@b."));
    assert!(email_ok("a@b.c."));
    assert!(email_ok("a@b.c"));
    assert!(!email_ok("nope"));
    assert!(!email_ok("a@b@c.d"));
    assert!(!email_ok("a@.c"));
    assert!(!email_ok(""));
}

#[test]
fn depth_message_and_log_level() {
    assert_eq!(spec_depth_message(), "xyz: argument struct nesting exceeds 20 levels (recursive type?)");
    assert_eq!(Config::default().default_log_level(), Level::Unset);
}

#[test]
fn impl_defaults() {
    let o = Options::default();
    assert_eq!(impl_name(&o, "tool"), ("tool".to_string(), "0.0.0".to_string()));
}

#[test]
fn cli_version_set_once() {
    let mut cell = VersionCell::new();
    let mut global = VersionCell::new();
    set_cli_version(&mut cell, "2.0.0");
    set_cli_version(&mut cell, "3.0.0");
    assert_eq!(cli_version(&mut cell, &mut global), "2.0.0");
    let mut fresh = VersionCell::new();
    assert_eq!(cli_version(&mut fresh, &mut global), "0.1.0");
}

#[test]
fn duration_parsing_forms() {
    assert_eq!(parse_duration("0").unwrap(), Duration::ZERO);
    assert_eq!(parse_duration("-0").unwrap(), Duration::ZERO);
    assert_eq!(parse_duration("+0").unwrap(), Duration::ZERO);
    assert_eq!(parse_duration("1h30m").unwrap(), Duration::from_secs(5400));
    assert_eq!(parse_duration("1.5s").unwrap(), Duration::from_millis(1500));
    assert_eq!(parse_duration("300ms").unwrap(), Duration::from_millis(300));
    assert!(parse_duration("5").is_err());
    assert!(parse_duration("").is_err());
    assert_eq!(parse_duration(&format_duration(Duration::from_secs(60))).unwrap(), Duration::from_secs(60));
    assert_eq!(parse_duration(&format_duration(Duration::from_nanos(1500))).unwrap(), Duration::from_nanos(1500));
}

#[test]
fn formatted_durations_parse_back() {
    for d in [
        Duration::ZERO,
        Duration::from_nanos(1),
        Duration::from_nanos(999),
        Duration::from_nanos(1500),
        Duration::from_nanos(123_456_789),
        Duration::from_secs(59) + Duration::from_nanos(1),
        Duration::from_secs(3723) + Duration::from_nanos(4),
        Duration::from_secs(90061),
    ] {
        assert_eq!(parse_duration(&format_duration(d)).unwrap(), d, "{}", format_duration(d));
    }
}

#[test]
fn registry_names_follow_adds() {
    let mut r: xyz_rust::registry::Registry<u8> = xyz_rust::registry::Registry::new();
    for n in ["c.x", "a.y", "b.z"] {
        r.add(n.to_string(), String::new(), 0).unwrap();
    }
    assert!(r.add("a.y".to_string(), String::new(), 1).is_err());
    assert_eq!(r.names(), vec!["a.y".to_string(), "b.z".to_string(), "c.x".to_string()]);
}
