use xyz_rust::cli::tree::CliHints;
use xyz_rust::command::{
    apply_cli_hint, apply_hints, apply_http_hint, apply_mcp_hint, cli_defaults, entry_fields, http_defaults,
    lookup_top_field, mcp_defaults, CliFieldHint, HTTPFieldHint, HTTPHints, MCPFieldHint, MCPHints,
};
use xyz_rust::field::{CliField, FieldKind, FieldMeta, HTTPField, MCPField};
use xyz_rust::json::Json;
use xyz_rust::mcp::{parse_annotations, tool_description};
use xyz_rust::schema::{build_schema, field_schema, Schema};

fn field(rust: &str, json: &str, kind: FieldKind) -> FieldMeta {
    FieldMeta {
        name: rust.to_string(),
        json_name: json.to_string(),
        kind,
        description: String::new(),
        required: false,
        secret: false,
        validate: String::new(),
        enum_values: Vec::new(),
        default: None,
        skip: false,
        cli: CliField { shorthand: None, positional: false, hidden: false, skip: false, env_var: None, default: None },
        http: HTTPField { location: String::new(), name: String::new(), default: None },
        mcp: MCPField { default: None },
        elem: None,
        children: Vec::new(),
    }
}

fn num(s: &str) -> Json {
    Json::Number(s.to_string())
}

fn cli_hints(fields: Vec<(String, CliFieldHint)>) -> CliHints {
    CliHints {
        usage: String::new(),
        aliases: Vec::new(),
        hidden: false,
        default: false,
        skip: false,
        daemon: false,
        before: String::new(),
        after: String::new(),
        fields,
    }
}

fn http_hints(fields: Vec<(String, HTTPFieldHint)>) -> HTTPHints {
    HTTPHints {
        method: String::new(),
        path: String::new(),
        timeout: std::time::Duration::from_secs(0),
        skip: false,
        fields,
    }
}

fn mcp_hints(fields: Vec<(String, MCPFieldHint)>) -> MCPHints {
    MCPHints { annotations: Vec::new(), skip: false, fields }
}

fn zero_cli() -> CliFieldHint {
    CliFieldHint { shorthand: None, positional: false, hidden: false, skip: false, env_var: None, default: None }
}

fn is_num(v: &Option<Json>, n: &str) -> bool {
    matches!(v, Some(Json::Number(x)) if x == n)
}

fn hint_fields() -> Vec<FieldMeta> {
    let mut age = field("age", "age", FieldKind::I32);
    age.cli.shorthand = Some('a');
    vec![age, field("name", "name", FieldKind::String)]
}

#[test]
fn hints_merge_over_tags() {
    let mut fields = hint_fields();
    let mut h_age = zero_cli();
    h_age.shorthand = Some("b".to_string());
    h_age.default = Some(num("5"));
    let mut h_name = zero_cli();
    h_name.env_var = Some("N".to_string());
    let cli = cli_hints(vec![("age".to_string(), h_age), ("NAME".to_string(), h_name)]);
    apply_hints("t.hint", &mut fields, &cli, &http_hints(vec![]), &mcp_hints(vec![])).unwrap();
    assert_eq!(fields[0].cli.shorthand, Some('b'));
    assert!(is_num(&fields[0].cli.default, "5"));
    assert_eq!(fields[1].cli.env_var.as_deref(), Some("N"));

    let mut fields2 = hint_fields();
    let cli2 = cli_hints(vec![("nope".to_string(), zero_cli())]);
    let err = apply_hints("t.hint2", &mut fields2, &cli2, &http_hints(vec![]), &mcp_hints(vec![])).unwrap_err();
    assert_eq!(err.to_text(), "cli field \"nope\": unknown field \"nope\" (fields: \"age\", \"name\")");
}

#[test]
fn zero_hint_keeps_tag_binding() {
    let mut fields = hint_fields();
    let cli = cli_hints(vec![("age".to_string(), zero_cli())]);
    let http = http_hints(vec![(
        "age".to_string(),
        HTTPFieldHint { location: String::new(), name: None, default: None },
    )]);
    let mcp = mcp_hints(vec![("age".to_string(), MCPFieldHint { default: None })]);
    apply_hints("t", &mut fields, &cli, &http, &mcp).unwrap();
    assert_eq!(fields[0].cli.shorthand, Some('a'));
    assert!(fields[0].cli.default.is_none());
    assert_eq!(fields[0].http.location, "");
    assert!(fields[0].mcp.default.is_none());
}

#[test]
fn hint_refusals() {
    let mut f = field("age", "age", FieldKind::I32);
    let mut h = zero_cli();
    h.shorthand = Some("ab".to_string());
    let err = apply_cli_hint(&mut f, "age", &h).unwrap_err();
    assert_eq!(err.to_text(), "cli field \"age\": shorthand must be one character, got \"ab\"");
    assert_eq!(f.cli.shorthand, None);

    let bad = HTTPFieldHint { location: "cookie".to_string(), name: None, default: None };
    let err = apply_http_hint(&mut f, "age", &bad).unwrap_err();
    assert_eq!(
        err.to_text(),
        "http field \"age\": unknown location \"cookie\" (want query|path|header|form|body)"
    );
    let good = HTTPFieldHint { location: "header".to_string(), name: Some("X-Age".to_string()), default: Some(num("3")) };
    apply_http_hint(&mut f, "age", &good).unwrap();
    assert_eq!(f.http.location, "header");
    assert_eq!(f.http.name, "X-Age");
    assert!(is_num(&f.http.default, "3"));
    apply_mcp_hint(&mut f, "age", &MCPFieldHint { default: Some(num("15")) }).unwrap();
    assert!(is_num(&f.mcp.default, "15"));

    let mut fields = hint_fields();
    let mcp = mcp_hints(vec![("ghost".to_string(), MCPFieldHint { default: None })]);
    let err = apply_hints("t", &mut fields, &cli_hints(vec![]), &http_hints(vec![]), &mcp).unwrap_err();
    assert!(err.to_text().starts_with("mcp field \"ghost\": unknown field"), "{}", err.to_text());
}

#[test]
fn lookup_by_json_rust_and_loose_name() {
    let fields = vec![field("user_name", "userName", FieldKind::String), field("Age", "age", FieldKind::I32)];
    assert_eq!(lookup_top_field(&fields, "userName"), Some(0));
    assert_eq!(lookup_top_field(&fields, "user_name"), Some(0));
    assert_eq!(lookup_top_field(&fields, "AGE"), Some(1));
    assert_eq!(lookup_top_field(&fields, "user.name"), None);
    assert_eq!(lookup_top_field(&fields, "nobody"), None);
}

#[test]
fn entry_fields_checks_name_and_analysis() {
    let none = cli_hints(vec![]);
    let err = entry_fields("bad name", Ok(hint_fields()), &none, &http_hints(vec![]), &mcp_hints(vec![])).unwrap_err();
    assert_eq!(
        err.to_text(),
        "spec: command \"bad name\": name must match ^[A-Za-z0-9][A-Za-z0-9._-]{0,127}$, got \"bad name\""
    );
    let cause = xyz_rust::errors::new(xyz_rust::errors::Kind::Internal, "unsupported shape".to_string());
    let err = entry_fields("ok.name", Err(cause), &none, &http_hints(vec![]), &mcp_hints(vec![])).unwrap_err();
    assert_eq!(err.to_text(), "spec: command \"ok.name\": unsupported shape");
    let fs = entry_fields("ok.name", Ok(hint_fields()), &none, &http_hints(vec![]), &mcp_hints(vec![])).unwrap();
    assert_eq!(fs.len(), 2);
}

#[test]
fn interface_defaults_and_required() {
    let mut age = field("age", "age", FieldKind::I32);
    age.default = Some(num("18"));
    let mut tag = field("tag", "tag", FieldKind::String);
    tag.required = true;
    let mut fields = vec![age, tag];
    let mut h = zero_cli();
    h.default = Some(num("20"));
    apply_hints("t.def", &mut fields, &cli_hints(vec![("age".to_string(), h)]), &http_hints(vec![]), &mcp_hints(vec![]))
        .unwrap();
    let d = cli_defaults(&fields);
    assert_eq!(d.len(), 1);
    assert_eq!(d[0].0, "age");
    assert!(matches!(&d[0].1, Json::Number(n) if n == "20"));
    assert!(http_defaults(&fields).is_empty());
    assert!(mcp_defaults(&fields).is_empty());
    let s = build_schema(&fields);
    assert_eq!(s.required, Some(vec!["tag".to_string()]));
}

fn prop<'a>(s: &'a Schema, k: &str) -> &'a Schema {
    &s.properties.as_ref().unwrap().iter().find(|(n, _)| n == k).unwrap().1
}

#[test]
fn mcp_default_replaces_schema_default() {
    let mut k = field("k", "k", FieldKind::I32);
    k.default = Some(num("10"));
    k.description = "default 10".to_string();
    let mut fields = vec![k];
    let mcp = mcp_hints(vec![("k".to_string(), MCPFieldHint { default: Some(num("15")) })]);
    apply_hints("t.mcp", &mut fields, &cli_hints(vec![]), &http_hints(vec![]), &mcp).unwrap();
    let s = build_schema(&fields);
    assert!(is_num(&prop(&s, "k").default, "15"));
    let d = mcp_defaults(&fields);
    assert_eq!(d.len(), 1);
    assert!(matches!(&d[0].1, Json::Number(n) if n == "15"));
}

#[test]
fn input_schema_shape() {
    let mut name = field("name", "name", FieldKind::String);
    name.description = "subject".to_string();
    name.required = true;
    let mut count = field("count", "count", FieldKind::I32);
    count.default = Some(num("18"));
    let mut mode = field("mode", "mode", FieldKind::String);
    mode.enum_values = vec![Json::Str("fast".to_string()), Json::Str("slow".to_string())];
    let mut token = field("token", "token", FieldKind::String);
    token.skip = true;
    let mut tags = field("tags", "tags", FieldKind::Slice);
    tags.elem = Some(Box::new(field("", "", FieldKind::String)));
    let mut limit = field("limit", "limit", FieldKind::Ptr);
    limit.elem = Some(Box::new(field("", "", FieldKind::I64)));
    let on = field("on", "on", FieldKind::Bool);
    let ratio = field("ratio", "ratio", FieldKind::F64);
    let fields = vec![name, count, mode, token, tags, limit, on, ratio];
    let s = build_schema(&fields);
    assert_eq!(s.ty.as_deref(), Some("object"));
    assert_eq!(prop(&s, "name").ty.as_deref(), Some("string"));
    assert_eq!(prop(&s, "name").description.as_deref(), Some("subject"));
    assert_eq!(prop(&s, "count").ty.as_deref(), Some("integer"));
    assert!(is_num(&prop(&s, "count").default, "18"));
    assert_eq!(prop(&s, "mode").enum_values.as_ref().unwrap().len(), 2);
    assert_eq!(prop(&s, "on").ty.as_deref(), Some("boolean"));
    assert_eq!(prop(&s, "ratio").ty.as_deref(), Some("number"));
    assert_eq!(prop(&s, "tags").ty.as_deref(), Some("array"));
    assert_eq!(prop(&s, "tags").items.as_ref().unwrap().ty.as_deref(), Some("string"));
    assert_eq!(prop(&s, "limit").ty.as_deref(), Some("integer"));
    assert_eq!(s.required, Some(vec!["name".to_string()]));
    let keys: Vec<&str> = s.properties.as_ref().unwrap().iter().map(|(k, _)| k.as_str()).collect();
    assert_eq!(keys, vec!["name", "count", "mode", "tags", "limit", "on", "ratio"]);
}

#[test]
fn nested_struct_schema() {
    let mut score = field("score", "score", FieldKind::I32);
    score.required = true;
    let note = field("note", "note", FieldKind::String);
    let mut inner = field("inner", "inner", FieldKind::Struct);
    inner.description = "inner".to_string();
    inner.children = vec![score, note];
    let s = field_schema(&inner);
    assert_eq!(s.ty.as_deref(), Some("object"));
    assert_eq!(s.description.as_deref(), Some("inner"));
    assert_eq!(s.required, Some(vec!["score".to_string()]));
    assert_eq!(prop(&s, "note").ty.as_deref(), Some("string"));
    let mut dur = field("d", "d", FieldKind::Duration);
    dur.description = String::new();
    let ds = field_schema(&dur);
    assert_eq!(ds.format.as_deref(), Some("duration"));
    assert!(ds.description.is_none());
}

#[test]
fn build_creates_tool_metadata() {
    assert_eq!(tool_description("求和", "两个整数相加"), "求和\n\n两个整数相加");
    let mut a = field("a", "a", FieldKind::I64);
    a.required = true;
    let mut b = field("b", "b", FieldKind::I64);
    b.required = true;
    let mut k = field("k", "k", FieldKind::I32);
    k.default = Some(num("10"));
    let mut fields = vec![a, b, k];
    let mcp = mcp_hints(vec![("k".to_string(), MCPFieldHint { default: Some(num("15")) })]);
    apply_hints("math.sum", &mut fields, &cli_hints(vec![]), &http_hints(vec![]), &mcp).unwrap();
    let s = build_schema(&fields);
    assert!(is_num(&prop(&s, "k").default, "15"));
    assert_eq!(prop(&s, "a").ty.as_deref(), Some("integer"));
    assert_eq!(s.required, Some(vec!["a".to_string(), "b".to_string()]));
    let ann = parse_annotations(&vec!["read".to_string(), "destructive".to_string(), "title:求和工具".to_string()]).unwrap();
    assert_eq!(ann.read_only, Some(true));
    assert_eq!(ann.destructive, Some(true));
    assert_eq!(ann.title.as_deref(), Some("求和工具"));
}
