use std::time::Duration;
use xyz_rust::errors::Kind;
use xyz_rust::blocks::{Block, Blocks};
use xyz_rust::errors::Error;
use xyz_rust::json::Json;
use xyz_rust::mcp::{parse_annotations, tool_description, tool_result};
use xyz_rust::mcp::{
    parse_args, validate_transport_versions, validate_versions, Options, DEFAULT_VERSIONS,
    PROTOCOL_V2025_03_26, PROTOCOL_V2026_07_28,
};

fn s2(v: &[&str]) -> Vec<String> {
    v.iter().map(|s| s.to_string()).collect()
}

#[test]
fn versions_validation() {
    assert!(validate_versions(&[]).is_ok());
    assert!(validate_versions(&["2025-11-25".to_string()]).is_ok());
    assert!(validate_versions(&["2026-07-28".to_string()]).is_ok());
    let err = validate_versions(&["1999-01-01".to_string()]).unwrap_err();
    assert!(err.to_text().contains("unknown protocol version"), "{}", err.to_text());
    let err = validate_versions(&["".to_string()]).unwrap_err();
    assert!(err.to_text().contains("empty protocol version"), "{}", err.to_text());
}

#[test]
fn versions_validation_first_bad_entry_decides() {
    let err = validate_versions(&s2(&["2025-11-25", "", "1999-01-01"])).unwrap_err();
    assert_eq!(err.to_text(), "mcp: empty protocol version in --versions");
    assert_eq!(err.kind(), Kind::Internal);
    let err = validate_versions(&s2(&["nope"])).unwrap_err();
    assert_eq!(
        err.to_text(),
        "mcp: unknown protocol version \"nope\" (known: 2026-07-28, 2025-11-25, 2025-06-18, 2025-03-26, 2024-11-05)"
    );
}

#[test]
fn transport_version_constraints() {
    let mut opts = Options {
        versions: vec![PROTOCOL_V2026_07_28.to_string()],
        ..Default::default()
    };
    assert!(validate_transport_versions("http", &opts).is_err());
    opts.stateless = true;
    assert!(validate_transport_versions("http", &opts).is_ok());
    let mut s_opts = Options {
        versions: vec![PROTOCOL_V2025_03_26.to_string()],
        ..Default::default()
    };
    assert!(validate_transport_versions("stdio", &s_opts).is_ok());
    s_opts.versions = vec![];
    assert!(validate_transport_versions("http", &s_opts).is_ok());
}

#[test]
fn transport_version_message() {
    let opts = Options {
        versions: vec![PROTOCOL_V2026_07_28.to_string()],
        ..Default::default()
    };
    let err = validate_transport_versions("http", &opts).unwrap_err();
    assert_eq!(
        err.to_text(),
        "transport \"http\" cannot serve any of the requested versions [\"2026-07-28\"]"
    );
}

#[test]
fn default_versions_newest_first() {
    assert_eq!(DEFAULT_VERSIONS[0], "2026-07-28");
    assert_eq!(DEFAULT_VERSIONS.len(), 5);
}

#[test]
fn parse_args_forms() {
    let (t, o) = parse_args(&s2(&[
        "http",
        "--addr",
        ":9000",
        "--versions=a,b",
        "--json-response",
        "--stateless",
        "--bearer=x",
        "--session-timeout",
        "90s",
        "--name",
        "N",
        "--server-version",
        "V",
    ]))
    .unwrap();
    assert_eq!(t, "http");
    assert_eq!(o.addr, ":9000");
    assert_eq!(o.versions, vec!["a", "b"]);
    assert!(o.json_response);
    assert!(o.stateless);
    assert_eq!(o.bearer_tokens, vec!["x"]);
    assert_eq!(o.session_timeout, Duration::from_secs(90));
    assert_eq!(o.name, "N");
    assert_eq!(o.version, "V");

    let err = parse_args(&s2(&[])).unwrap_err();
    assert!(err.to_text().contains("missing transport"), "{}", err.to_text());
    let err = parse_args(&s2(&["x", "y"])).unwrap_err();
    assert!(err.to_text().contains("unexpected argument"), "{}", err.to_text());
    let err = parse_args(&s2(&["--ghost", "stdio"])).unwrap_err();
    assert!(err.to_text().contains("unknown flag"), "{}", err.to_text());
}

#[test]
fn parse_args_edges() {
    // A valued flag without its value ends the scan.
    let (t, o) = parse_args(&s2(&["stdio", "--addr"])).unwrap();
    assert_eq!(t, "stdio");
    assert_eq!(o.addr, "");
    // Repeated bearer flags merge without duplicates.
    let (_, o) = parse_args(&s2(&["http", "--bearer", "a,b", "--bearer=b,c"])).unwrap();
    assert_eq!(o.bearer_tokens, vec!["a", "b", "c"]);
    let err = parse_args(&s2(&["http", "--session-timeout=bogus"])).unwrap_err();
    assert!(err.to_text().starts_with("invalid --session-timeout: "), "{}", err.to_text());
    let err = parse_args(&s2(&["x", "y", "z"])).unwrap_err();
    assert_eq!(err.to_text(), "unexpected argument \"z\"");
    assert_eq!(err.kind(), Kind::Internal);
}

#[test]
fn options_merge_defaults() {
    let base = Options {
        addr: ":9000".to_string(),
        bearer_tokens: vec!["b".to_string()],
        stateless: true,
        ..Default::default()
    };
    let mut from_flags = Options::default();
    from_flags.merge_defaults(&base);
    assert_eq!(from_flags.addr, ":9000");
    assert_eq!(from_flags.bearer_tokens, vec!["b"]);
    assert!(from_flags.stateless);
    let mut from_flags2 = Options {
        addr: ":7777".to_string(),
        ..Default::default()
    };
    from_flags2.merge_defaults(&base);
    assert_eq!(from_flags2.addr, ":7777");
}

#[test]
fn tool_description_and_annotations() {
    assert_eq!(tool_description("sum", "adds numbers"), "sum\n\nadds numbers");
    assert_eq!(tool_description("", "adds numbers"), "adds numbers");
    assert_eq!(tool_description("sum", ""), "sum");
    assert!(parse_annotations(&Vec::new()).is_none());
    let anns = vec![
        " Read ".to_string(),
        "destructive".to_string(),
        "title: Create user ".to_string(),
        "bogus".to_string(),
        "write".to_string(),
    ];
    let h = parse_annotations(&anns).unwrap();
    assert_eq!(h.read_only, Some(false));
    assert_eq!(h.destructive, Some(true));
    assert_eq!(h.idempotent, None);
    assert_eq!(h.open_world, None);
    assert_eq!(h.title.as_deref(), Some("Create user"));
}

#[test]
fn tool_results_by_outcome() {
    let none = Vec::new();
    let v = Json::Object(vec![("k".to_string(), Json::Str("v".to_string()))]);
    let r = tool_result(Ok(v), &none);
    assert!(!r.is_error);
    assert_eq!(r.content, vec![Block::Text { text: "k  v".to_string() }]);
    assert!(matches!(r.structured, Some(Json::Object(_))));

    let env = Blocks::new(vec![
        Block::Text { text: "hello".to_string() },
        Block::Image { mime_type: "image/png".to_string(), data: "aGVsbG8=".to_string() },
    ])
    .envelope();
    let r = tool_result(Ok(env), &none);
    assert_eq!(r.content.len(), 2);
    assert_eq!(r.content[0], Block::Text { text: "hello".to_string() });

    let e = Error::wrap_msg(Kind::NotFound, Error::foreign("no such user".to_string()), "lookup".to_string());
    let r = tool_result(Err(e), &none);
    assert!(r.is_error);
    assert!(r.structured.is_none());
    assert_eq!(r.content, vec![Block::Text { text: "no such user".to_string() }]);
    let r = tool_result(Err(Error::new(Kind::Conflict, "taken".to_string())), &none);
    assert_eq!(r.content, vec![Block::Text { text: "taken".to_string() }]);
}
