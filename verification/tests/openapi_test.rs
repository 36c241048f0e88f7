use xyz_rust::command::HTTPHints;
use xyz_rust::field::{CliField, FieldKind, FieldMeta, HTTPField, MCPField};
use xyz_rust::openapi::{has_request_body, openapi_operations, operation_params, param_type};

fn hints(method: &str, path: &str) -> HTTPHints {
    HTTPHints {
        method: method.to_string(),
        path: path.to_string(),
        timeout: std::time::Duration::from_secs(0),
        skip: false,
        fields: Vec::new(),
    }
}

fn field(name: &str, kind: FieldKind, location: &str) -> FieldMeta {
    FieldMeta {
        name: name.to_string(),
        json_name: name.to_string(),
        kind,
        description: String::new(),
        required: false,
        secret: false,
        validate: String::new(),
        enum_values: Vec::new(),
        default: None,
        skip: false,
        cli: CliField { shorthand: None, positional: false, hidden: false, skip: false, env_var: None, default: None },
        http: HTTPField { location: location.to_string(), name: String::new(), default: None },
        mcp: MCPField { default: None },
        elem: None,
        children: Vec::new(),
    }
}

#[test]
fn healthz_and_openapi() {
    let ops = openapi_operations(&[hints("POST", "/users/{name}")]);
    assert_eq!(ops.len(), 1);
    assert_eq!(ops[0].path, "/users/{name}");
    assert_eq!(ops[0].method, "post");
    assert_eq!(ops[0].entry, 0);
    let mut name = field("name", FieldKind::String, "path");
    name.required = true;
    let age = field("age", FieldKind::I32, "query");
    let mut token = field("token", FieldKind::String, "header");
    token.skip = true;
    let params = operation_params(&vec![name, age, token]);
    assert_eq!(params.len(), 2);
    assert_eq!((params[0].name.as_str(), params[0].location.as_str(), params[0].required, params[0].ty), ("name", "path", true, "string"));
    assert_eq!((params[1].name.as_str(), params[1].location.as_str(), params[1].required, params[1].ty), ("age", "query", false, "integer"));
    assert!(has_request_body("POST"));
}

#[test]
fn operations_ordered_by_path_then_method() {
    let mut skipped = hints("GET", "/hidden");
    skipped.skip = true;
    let hs = vec![hints("POST", "/b"), hints("GET", "/b"), skipped, hints("", "/none"), hints("DELETE", "/a")];
    let ops = openapi_operations(&hs);
    let got: Vec<(usize, &str, &str)> = ops.iter().map(|o| (o.entry, o.path.as_str(), o.method.as_str())).collect();
    assert_eq!(got, vec![(4, "/a", "delete"), (1, "/b", "get"), (0, "/b", "post")]);
}

#[test]
fn param_types_and_bodies() {
    assert_eq!(param_type(FieldKind::Bool), "boolean");
    assert_eq!(param_type(FieldKind::U64), "integer");
    assert_eq!(param_type(FieldKind::F32), "number");
    assert_eq!(param_type(FieldKind::Slice), "array");
    assert_eq!(param_type(FieldKind::Struct), "object");
    assert_eq!(param_type(FieldKind::Ptr), "string");
    assert_eq!(param_type(FieldKind::Duration), "string");
    assert!(has_request_body("PUT") && has_request_body("PATCH"));
    assert!(!has_request_body("GET") && !has_request_body("post"));
    let default_query = field("q", FieldKind::String, "");
    assert!(operation_params(&vec![default_query]).is_empty());
}
