use std::time::Duration;
use xyz_rust::blocks::decode_base64;
use xyz_rust::json::{compact_json, parse_json, pretty_json, Json};
use xyz_rust::scalar::{format_duration, parse_duration};
use xyz_rust::text::str_contains;

#[test]
fn parse_keeps_member_order() {
    match parse_json(b"{\"b\": 1, \"a\": [true, null, \"x\"]}") {
        Some(Json::Object(es)) => {
            assert_eq!(es.len(), 2);
            assert_eq!(es[0].0, "b");
            assert_eq!(es[1].0, "a");
            match &es[0].1 {
                Json::Number(n) => assert_eq!(n, "1"),
                other => panic!("{other:?}"),
            }
        }
        other => panic!("{other:?}"),
    }
    assert!(parse_json(b"{nope").is_none());
    assert!(parse_json(b"").is_none());
}

#[test]
fn pretty_and_compact_text() {
    let v = Json::Object(vec![
        ("b".to_string(), Json::Number("1".to_string())),
        ("a".to_string(), Json::Array(vec![Json::Bool(true), Json::Str("q\"".to_string())])),
    ]);
    assert_eq!(compact_json(&v), "{\"b\":1,\"a\":[true,\"q\\\"\"]}");
    assert_eq!(pretty_json(&v), "{\n  \"b\": 1,\n  \"a\": [\n    true,\n    \"q\\\"\"\n  ]\n}");
    assert_eq!(pretty_json(&Json::Str("x".to_string())), "\"x\"");
    assert_eq!(compact_json(&Json::Null), "null");
}

#[test]
fn text_contains() {
    assert!(str_contains("application/json; charset=utf-8", "application/json"));
    assert!(str_contains("abc", ""));
    assert!(!str_contains("text/plain", "application/json"));
    assert!(!str_contains("ab", "abc"));
}

#[test]
fn duration_text_parses_back() {
    for d in [
        Duration::from_nanos(0),
        Duration::from_nanos(7),
        Duration::from_micros(1500),
        Duration::from_millis(250),
        Duration::from_secs(3723) + Duration::from_millis(500),
        Duration::from_secs(90061),
    ] {
        assert_eq!(parse_duration(&format_duration(d)).unwrap(), d);
    }
}

#[test]
fn base64_encodings_decode_back() {
    assert_eq!(decode_base64("aGk=").unwrap(), b"hi");
    assert_eq!(decode_base64("aGk").unwrap(), b"hi");
    assert_eq!(decode_base64("AP8=").unwrap(), vec![0u8, 255]);
    assert_eq!(decode_base64("+/8=").unwrap(), vec![251u8, 255]);
}
