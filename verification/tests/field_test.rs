use xyz_rust::decode::{decode_bool, decode_string, json_type_name, object_arg, DepthGuard, MAX_DECODE_DEPTH};
use xyz_rust::errors::Kind;
use xyz_rust::field::{
    check_int_width, check_uint_width, parse_cli_tag, parse_http_tag, spec_depth_guard, spec_depth_ok,
    spec_depth_message, synthetic, valid_http_location, FieldKind, MAX_SPEC_DEPTH,
};
use xyz_rust::field::{field_rule_error, CliField, FieldMeta, HTTPField, MCPField};
use xyz_rust::json::Json;

#[test]
fn schema_types_of_shapes() {
    assert_eq!(FieldKind::String.schema_type(), "string");
    assert_eq!(FieldKind::Duration.schema_type(), "string");
    assert_eq!(FieldKind::Bool.schema_type(), "boolean");
    assert_eq!(FieldKind::U16.schema_type(), "integer");
    assert_eq!(FieldKind::F64.schema_type(), "number");
    assert_eq!(FieldKind::Slice.schema_type(), "array");
    assert_eq!(FieldKind::Ptr.schema_type(), "pointer");
    assert_eq!(FieldKind::Union.schema_type(), "object");
    assert_eq!(FieldKind::default(), FieldKind::String);
}

#[test]
fn scalar_and_numeric_shapes() {
    assert!(FieldKind::String.is_scalar());
    assert!(!FieldKind::String.is_numeric());
    assert!(FieldKind::Bool.is_scalar());
    assert!(!FieldKind::Bool.is_numeric());
    assert!(FieldKind::I64.is_numeric());
    assert!(FieldKind::F32.is_numeric());
    assert!(!FieldKind::Duration.is_scalar());
    assert!(!FieldKind::Slice.is_numeric());
    assert_eq!(FieldKind::I16.is_signed_width(), Some(16));
    assert_eq!(FieldKind::U16.is_signed_width(), None);
}

#[test]
fn synthetic_node_is_blank() {
    let inner = synthetic(FieldKind::I32, vec![], None);
    let s = synthetic(FieldKind::Slice, vec![], Some(Box::new(inner)));
    assert_eq!(s.kind, FieldKind::Slice);
    assert_eq!(s.json_name, "");
    assert!(!s.required);
    assert_eq!(s.elem.as_ref().unwrap().kind, FieldKind::I32);
    assert!(s.children.is_empty());
}

#[test]
fn http_locations() {
    for ok in ["", "query", "path", "header", "form", "body"] {
        assert!(valid_http_location(ok));
    }
    assert!(!valid_http_location("cookie"));
    let h = parse_http_tag("header", Some("X-Token")).unwrap();
    assert_eq!(h.location, "header");
    assert_eq!(h.name, "X-Token");
    let h = parse_http_tag("", None).unwrap();
    assert_eq!(h.name, "");
    let e = parse_http_tag("cookie", None).unwrap_err();
    assert_eq!(
        e.to_text(),
        "unknown http location \"cookie\" (want query|path|header|form|body)"
    );
}

#[test]
fn cli_tag_forms() {
    let f = parse_cli_tag("shorthand=n, positional ,,hidden,env=NAME").unwrap();
    assert_eq!(f.shorthand, Some('n'));
    assert!(f.positional);
    assert!(f.hidden);
    assert!(!f.skip);
    assert_eq!(f.env_var.as_deref(), Some("NAME"));
    let f = parse_cli_tag(" - ").unwrap();
    assert!(f.skip);
    let f = parse_cli_tag("").unwrap();
    assert!(!f.skip && !f.positional && f.shorthand.is_none());
    let e = parse_cli_tag("shorthand=ab").unwrap_err();
    assert_eq!(e.to_text(), "cli shorthand must be one character, got \"ab\"");
    let e = parse_cli_tag("env=").unwrap_err();
    assert_eq!(e.to_text(), "cli env requires a variable name");
    let e = parse_cli_tag("positional,wat").unwrap_err();
    assert_eq!(
        e.to_text(),
        "unknown cli option \"wat\" (want positional|hidden|shorthand=X|env=X|-)"
    );
    assert_eq!(e.kind(), Kind::Internal);
}

#[test]
fn integer_widths() {
    assert!(check_int_width(FieldKind::I8, 127).is_ok());
    let e = check_int_width(FieldKind::I8, -129).unwrap_err();
    assert_eq!(e.to_text(), "value -129 overflows I8");
    assert!(check_int_width(FieldKind::I64, i64::MIN).is_ok());
    let e = check_int_width(FieldKind::I32, i64::MIN).unwrap_err();
    assert_eq!(e.to_text(), "value -9223372036854775808 overflows I32");
    assert!(check_uint_width(FieldKind::U16, 65535).is_ok());
    let e = check_uint_width(FieldKind::U8, 256).unwrap_err();
    assert_eq!(e.to_text(), "value 256 overflows U8");
}

#[test]
fn spec_depth_guard_panics_on_deep_nesting() {
    let mut depth = 0usize;
    let mut refused = None;
    for _ in 0..50 {
        if !spec_depth_ok(depth) {
            refused = Some(spec_depth_message());
            break;
        }
        spec_depth_guard(&mut depth);
    }
    assert_eq!(depth, MAX_SPEC_DEPTH + 1);
    assert!(refused.unwrap().contains("nesting exceeds 20 levels"));
}

#[test]
fn decode_depth_guard_enters_and_leaves() {
    let mut g = DepthGuard::new();
    for _ in 0..MAX_DECODE_DEPTH {
        assert!(g.enter().is_ok());
    }
    let e = g.enter().unwrap_err();
    assert_eq!(e.to_text(), "argument struct nesting exceeds 20 levels (recursive type?)");
    assert_eq!(e.kind(), Kind::InvalidInput);
    g.leave();
    assert_eq!(g.depth(), MAX_DECODE_DEPTH - 1);
    assert!(g.enter().is_ok());
}

#[test]
fn object_arg_checks_shape() {
    let mut g = DepthGuard::new();
    let v = Json::Object(vec![("a".to_string(), Json::Null)]);
    let es = object_arg(&v, &mut g).unwrap();
    assert_eq!(es.len(), 1);
    assert_eq!(g.depth(), 1);
    let e = object_arg(&Json::Array(vec![]), &mut g).unwrap_err();
    assert_eq!(e.to_text(), "expect object, got array");
    assert_eq!(g.depth(), 1);
    assert_eq!(json_type_name(&Json::Bool(true)), "bool");
}

#[test]
fn validation_error_maps_to_400() {
    let f = FieldMeta {
        name: "name".to_string(),
        json_name: "name".to_string(),
        kind: FieldKind::String,
        description: String::new(),
        required: true,
        secret: false,
        validate: "min=2".to_string(),
        enum_values: Vec::new(),
        default: None,
        skip: false,
        cli: CliField { shorthand: None, positional: false, hidden: false, skip: false, env_var: None, default: None },
        http: HTTPField { location: "path".to_string(), name: String::new(), default: None },
        mcp: MCPField { default: None },
        elem: None,
        children: Vec::new(),
    };
    let e = field_rule_error(&f, "min=2");
    assert_eq!(e.to_text(), "invalid value for field \"name\": min=2");
    let kind = xyz_rust::errors::classify(&e).unwrap();
    assert_eq!(xyz_rust::errors::http_status(kind), 400);
}

#[test]
fn string_forms_accepted() {
    assert_eq!(decode_bool(&Json::Bool(true)).unwrap(), true);
    assert_eq!(decode_bool(&Json::Str("TRUE".to_string())).unwrap(), true);
    assert_eq!(decode_bool(&Json::Str("F".to_string())).unwrap(), false);
    assert_eq!(decode_bool(&Json::Str("1".to_string())).unwrap(), true);
    let e = decode_bool(&Json::Str("yes".to_string())).unwrap_err();
    assert_eq!(e.to_text(), "expect boolean, got \"yes\"");
    assert_eq!(xyz_rust::errors::classify(&e), Some(Kind::InvalidInput));
    assert_eq!(decode_bool(&Json::Null).unwrap_err().to_text(), "expect boolean, got null");
    assert_eq!(decode_string(&Json::Number("42".to_string())).unwrap(), "42");
    assert_eq!(decode_string(&Json::Str("x".to_string())).unwrap(), "x");
    assert_eq!(decode_string(&Json::Array(vec![])).unwrap_err().to_text(), "expect string, got array");
}
