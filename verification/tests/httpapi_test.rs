use xyz_rust::errors::{Error, Kind};
use xyz_rust::httpapi::{cause_message, hex_val, parse_form_query, path_param, pct_decode, query_values};
use xyz_rust::field::{CliField, FieldKind, FieldMeta, HTTPField, MCPField};
use xyz_rust::command::HTTPHints;
use xyz_rust::httpapi::{bearer_ok, bind_parsed, bind_request, cors_origin, http_name, is_preflight, plan_routes, vary_with_origin};
use xyz_rust::json::{parse_json, Json};

#[test]
fn percent_decoding() {
    assert_eq!(pct_decode("hello%20form"), "hello form");
    assert_eq!(pct_decode("a+b"), "a b");
    assert_eq!(pct_decode("%E4%BD%A0"), "你");
    assert_eq!(pct_decode("100%"), "100%");
    assert_eq!(pct_decode("%4"), "%4");
    assert_eq!(pct_decode("%zz"), "%zz");
    assert_eq!(pct_decode("%ff"), "\u{fffd}");
    assert_eq!(hex_val(Some(&b'a')), Some(10));
    assert_eq!(hex_val(Some(&b'F')), Some(15));
    assert_eq!(hex_val(Some(&b'g')), None);
    assert_eq!(hex_val(None), None);
}

#[test]
fn form_and_query_pairs() {
    let p = parse_form_query("note=hello%20form&&flag&x=1=2");
    assert_eq!(
        p,
        vec![
            ("note".to_string(), "hello form".to_string()),
            ("flag".to_string(), String::new()),
            ("x".to_string(), "1=2".to_string()),
        ]
    );
    assert_eq!(query_values("age=7&tag=a&tag=b", "tag"), Some(vec!["a".to_string(), "b".to_string()]));
    assert_eq!(query_values("age=7", "tag"), None);
    assert!(parse_form_query("").is_empty());
}

#[test]
fn path_parameters() {
    assert_eq!(path_param("/users/{name}", "/users/alice", "name"), Some("alice".to_string()));
    assert_eq!(path_param("/users/{name}", "/users/a%20b", "name"), Some("a b".to_string()));
    assert_eq!(path_param("/users/{name}", "/users/alice/x", "name"), None);
    assert_eq!(path_param("/users/{id}", "/users/alice", "name"), None);
}

#[test]
fn error_answer_message() {
    let plain = Error::new(Kind::NotFound, "no such user".to_string());
    assert_eq!(cause_message(&plain), "no such user");
    let wrapped = Error::wrap_msg(Kind::NotFound, Error::new(Kind::Conflict, "inner".to_string()), "outer".to_string());
    assert_eq!(cause_message(&wrapped), "inner");
}

fn http_field(name: &str, kind: FieldKind, location: &str) -> FieldMeta {
    FieldMeta {
        name: name.to_string(),
        json_name: name.to_string(),
        kind,
        description: String::new(),
        required: false,
        secret: false,
        validate: String::new(),
        enum_values: Vec::new(),
        default: None,
        skip: false,
        cli: CliField { shorthand: None, positional: false, hidden: false, skip: false, env_var: None, default: None },
        http: HTTPField { location: location.to_string(), name: String::new(), default: None },
        mcp: MCPField { default: None },
        elem: None,
        children: Vec::new(),
    }
}

fn str_arg(m: &[(String, Json)], k: &str) -> Option<String> {
    m.iter().find(|(n, _)| n == k).and_then(|(_, v)| match v {
        Json::Str(s) => Some(s.clone()),
        _ => None,
    })
}

fn add_user_fields() -> Vec<FieldMeta> {
    let mut name = http_field("name", FieldKind::String, "path");
    name.required = true;
    let mut age = http_field("age", FieldKind::I32, "query");
    age.default = Some(Json::Number("18".to_string()));
    let mut token = http_field("token", FieldKind::String, "header");
    token.skip = true;
    token.http.name = "X-Token".to_string();
    vec![name, age, token]
}

#[test]
fn binding_merges_body_path_query_header() {
    let body = b"{\"age\": 9}";
    let headers = vec![
        ("x-token".to_string(), Some("tk".to_string())),
        ("content-type".to_string(), Some("application/json".to_string())),
    ];
    let m = bind_request(&add_user_fields(), &Vec::new(), body, "/users/{name}", "/users/alice", "age=7", &headers)
        .unwrap();
    // The query value, bound after the body, wins over it.
    assert_eq!(
        format!("{}:{}:{}", str_arg(&m, "name").unwrap(), str_arg(&m, "age").unwrap(), str_arg(&m, "token").unwrap()),
        "alice:7:tk"
    );
}

#[test]
fn invalid_declared_json_body_is_400() {
    let headers = vec![("content-type".to_string(), Some("application/json".to_string()))];
    let err = bind_request(&add_user_fields(), &Vec::new(), b"{nope", "/users/{name}", "/users/alice", "", &headers)
        .unwrap_err();
    assert_eq!(xyz_rust::errors::http_status(xyz_rust::errors::classify(&err).unwrap()), 400);
    assert!(err.to_text().contains("invalid JSON body"));
    let err = bind_request(
        &add_user_fields(),
        &Vec::new(),
        b"[1]",
        "/users/{name}",
        "/users/alice",
        "",
        &Vec::new(),
    )
    .unwrap_err();
    assert_eq!(err.to_text(), "invalid JSON body");
}

#[test]
fn undeclared_body_is_not_rejected_as_json() {
    let fields = vec![http_field("note", FieldKind::String, "form")];
    let m = bind_request(&fields, &Vec::new(), b"note=hello%20form", "/f", "/f", "", &Vec::new())
        .unwrap();
    assert_eq!(format!("note={}", str_arg(&m, "note").unwrap()), "note=hello form");
    let m = bind_request(&fields, &Vec::new(), b"note=frombody", "/f", "/f", "note=fromquery", &Vec::new())
        .unwrap();
    assert_eq!(str_arg(&m, "note").unwrap(), "frombody");
}

#[test]
fn channel_defaults_fill_only_absent_keys() {
    let mut a = http_field("a", FieldKind::String, "query");
    a.http.default = Some(Json::Str("http".to_string()));
    let fields = vec![a, http_field("b", FieldKind::Slice, "query")];
    let defaults = vec![("a".to_string(), "chan".to_string()), ("c".to_string(), "chan".to_string())];
    let m = bind_request(&fields, &defaults, b"", "/x", "/x", "b=1&b=2", &Vec::new()).unwrap();
    assert_eq!(str_arg(&m, "a").unwrap(), "http");
    assert_eq!(str_arg(&m, "c").unwrap(), "chan");
    match &m.iter().find(|(k, _)| k == "b").unwrap().1 {
        Json::Array(items) => assert_eq!(items.len(), 2),
        other => panic!("{other:?}"),
    }
}

#[test]
fn http_name_precedence() {
    let mut f = http_field("user_id", FieldKind::String, "header");
    assert_eq!(http_name(&f), "user_id");
    f.http.name = "X-User".to_string();
    assert_eq!(http_name(&f), "X-User");
    f.http.name = String::new();
    f.json_name = String::new();
    assert_eq!(http_name(&f), "user_id");
}

fn route(method: &str, path: &str) -> HTTPHints {
    HTTPHints {
        method: method.to_string(),
        path: path.to_string(),
        timeout: std::time::Duration::from_secs(0),
        skip: false,
        fields: Vec::new(),
    }
}

#[test]
fn conflicting_routes_rejected() {
    let err = plan_routes(&[route("GET", "/dup"), route("GET", "/dup")]).unwrap_err();
    assert!(err.to_text().contains("conflicts"), "{}", err.to_text());
    assert_eq!(err.to_text(), "httpapi: route \"GET\" \"/dup\" conflicts with an existing route");
    assert_eq!(plan_routes(&[route("GET", "/d"), route("POST", "/d")]).unwrap(), vec![0, 1]);
}

#[test]
fn routes_skip_undeclared_and_refuse_unknown_methods() {
    let mut skipped = route("GET", "/a");
    skipped.skip = true;
    let r = plan_routes(&[skipped, route("", "/b"), route("GET", ""), route("DELETE", "/c"), route("GET", "/a")]).unwrap();
    assert_eq!(r, vec![3, 4]);
    let err = plan_routes(&[route("BREW", "/pot")]).unwrap_err();
    assert_eq!(err.to_text(), "httpapi: unsupported HTTP method \"BREW\"");
}

#[test]
fn bearer_and_cors_middleware() {
    let tokens = vec!["s3cret".to_string()];
    assert!(!bearer_ok("", &tokens));
    assert!(bearer_ok("Bearer s3cret", &tokens));
    assert!(!bearer_ok("bearer s3cret", &tokens));
    assert!(!bearer_ok("Bearer s3cret ", &tokens));
    let origins = vec!["http://app.local".to_string()];
    let allowed = cors_origin(Some("http://app.local"), &origins);
    assert_eq!(allowed, Some(("http://app.local".to_string(), true)));
    assert!(is_preflight("OPTIONS", &allowed));
    assert!(!is_preflight("GET", &allowed));
    assert_eq!(cors_origin(Some("http://evil"), &origins), None);
    assert!(!is_preflight("OPTIONS", &None));
    assert_eq!(cors_origin(Some("http://evil"), &vec!["*".to_string()]), Some(("*".to_string(), false)));
    assert_eq!(cors_origin(None, &vec!["*".to_string()]), None);
    assert_eq!(vary_with_origin(""), "Origin");
    assert_eq!(vary_with_origin("Accept-Encoding"), "Accept-Encoding, Origin");
}

#[test]
fn business_error_maps_to_404_with_error_body() {
    let e = xyz_rust::errors::new(Kind::NotFound, "no such user".to_string());
    let kind = xyz_rust::errors::classify(&e).unwrap_or(Kind::Internal);
    assert_eq!(xyz_rust::errors::http_status(kind), 404);
    assert_eq!(cause_message(&e), "no such user");
}

#[test]
fn handler_for_binds_one_entry() {
    let headers = vec![("x-token".to_string(), Some("z".to_string()))];
    let m = bind_request(&add_user_fields(), &Vec::new(), b"", "/users/{name}", "/users/some", "age=3", &headers)
        .unwrap();
    assert_eq!(
        format!("{}:{}:{}", str_arg(&m, "name").unwrap(), str_arg(&m, "age").unwrap(), str_arg(&m, "token").unwrap()),
        "some:3:z"
    );
}

#[test]
fn json_object_body_is_the_argument_base() {
    let headers = vec![("x-token".to_string(), Some("tk".to_string()))];
    let m = bind_request(&add_user_fields(), &Vec::new(), b"{\"age\": 9, \"extra\": [1, 2]}", "/users/{name}", "/users/bob", "", &headers)
        .unwrap();
    assert_eq!(str_arg(&m, "name").unwrap(), "bob");
    match &m.iter().find(|(k, _)| k == "age").unwrap().1 {
        Json::Number(n) => assert_eq!(n, "9"),
        other => panic!("{other:?}"),
    }
    match &m.iter().find(|(k, _)| k == "extra").unwrap().1 {
        Json::Array(items) => assert_eq!(items.len(), 2),
        other => panic!("{other:?}"),
    }
}

#[test]
fn declared_json_content_type_with_parameters() {
    let headers = vec![("content-type".to_string(), Some("application/json; charset=utf-8".to_string()))];
    let err = bind_request(&add_user_fields(), &Vec::new(), b"age=3", "/users/{name}", "/users/a", "", &headers).unwrap_err();
    assert_eq!(err.to_text(), "invalid JSON body");
    assert_eq!(err.kind(), Kind::InvalidInput);
    let headers = vec![("content-type".to_string(), Some("text/plain".to_string()))];
    assert!(bind_request(&add_user_fields(), &Vec::new(), b"age=3", "/users/{name}", "/users/a", "", &headers).is_ok());
}

#[test]
fn parsed_body_binds_like_the_request() {
    let parsed = parse_json(b"{\"age\": \"12\"}");
    let m = bind_parsed(&add_user_fields(), &Vec::new(), b"{\"age\": \"12\"}", parsed, "/users/{name}", "/users/c", "", &Vec::new())
        .unwrap();
    assert_eq!(str_arg(&m, "age").unwrap(), "12");
    let err = bind_parsed(&add_user_fields(), &Vec::new(), b"7", Some(Json::Number("7".to_string())), "/u", "/u", "", &Vec::new())
        .unwrap_err();
    assert_eq!(err.to_text(), "invalid JSON body");
    // An empty body is not read as JSON, whatever was parsed.
    assert!(bind_parsed(&add_user_fields(), &Vec::new(), b"", Some(Json::Null), "/u", "/u", "", &Vec::new()).is_ok());
}
