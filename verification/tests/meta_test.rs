use xyz_rust::decode::{enum_refusal, expect_meta_len, field_error, field_source, Source};
use xyz_rust::errors::{classify, Kind};
use xyz_rust::validate::elem_ref;
use xyz_rust::field::{float_literals, meta_from_spec, parse_default, parse_enum, synthetic, FieldKind, FieldSpec};
use xyz_rust::json::Json;
use xyz_rust::rename::wire_name;
use xyz_rust::schema::build_schema;
use xyz_rust::scalar::{parse_datetime, parse_i64_literal, parse_scalar_literal, parse_u64_literal, FloatReading};

fn spec(name: &'static str, kind: FieldKind) -> FieldSpec {
    FieldSpec {
        rust_name: name,
        json_name: name,
        kind,
        desc: "",
        required: false,
        secret: false,
        skip: false,
        validate_s: "",
        enum_s: "",
        default_s: "",
        cli_s: "",
        http_s: "",
        http_name: None,
        elem: None,
        children: Vec::new(),
        union: None,
    }
}

fn number(j: &Json) -> String {
    match j {
        Json::Number(n) => n.clone(),
        other => panic!("not a number: {other:?}"),
    }
}

#[test]
fn integer_literals_read_like_str_parse() {
    assert_eq!(parse_i64_literal(" 42 "), Some(42));
    assert_eq!(parse_i64_literal("+7"), Some(7));
    assert_eq!(parse_i64_literal("-9223372036854775808"), Some(i64::MIN));
    assert_eq!(parse_i64_literal("9223372036854775808"), None);
    assert_eq!(parse_i64_literal("-"), None);
    assert_eq!(parse_i64_literal("1_000"), None);
    assert_eq!(parse_i64_literal(""), None);
    assert_eq!(parse_u64_literal("18446744073709551615"), Some(u64::MAX));
    assert_eq!(parse_u64_literal("18446744073709551616"), None);
    assert_eq!(parse_u64_literal("-0"), None);
    assert_eq!(parse_u64_literal("+3"), Some(3));
    assert_eq!(parse_u64_literal("99999999999999999999999"), None);
}

#[test]
fn scalar_literals_by_shape() {
    let none: Vec<FloatReading> = Vec::new();
    assert_eq!(number(&parse_scalar_literal(FieldKind::I32, " -18 ", &none).unwrap()), "-18");
    assert_eq!(number(&parse_scalar_literal(FieldKind::U16, "65535", &none).unwrap()), "65535");
    let e = parse_scalar_literal(FieldKind::I8, "999", &none).unwrap_err();
    assert_eq!(e.to_text(), "value 999 overflows I8");
    assert_eq!(classify(&e), Some(Kind::Internal));
    let e = parse_scalar_literal(FieldKind::U8, "-1", &none).unwrap_err();
    assert_eq!(e.to_text(), "expect unsigned integer, got \"-1\"");
    let e = parse_scalar_literal(FieldKind::I64, "2.5", &none).unwrap_err();
    assert_eq!(e.to_text(), "expect integer, got \"2.5\"");
    assert!(matches!(parse_scalar_literal(FieldKind::Bool, "T", &none).unwrap(), Json::Bool(true)));
    assert_eq!(
        parse_scalar_literal(FieldKind::Bool, "yes", &none).unwrap_err().to_text(),
        "expect boolean, got \"yes\""
    );
    assert!(matches!(parse_scalar_literal(FieldKind::String, " a ", &none).unwrap(), Json::Str(s) if s == " a "));
    assert_eq!(
        parse_scalar_literal(FieldKind::Duration, "1s", &none).unwrap_err().to_text(),
        "unsupported scalar kind Duration for literal \"1s\""
    );
}

#[test]
fn float_literals_come_from_readings() {
    let readings = vec![
        FloatReading { text: "1.50".to_string(), single: false, number: Some("1.5".to_string()) },
        FloatReading { text: "0.1".to_string(), single: true, number: Some("0.10000000149011612".to_string()) },
        FloatReading { text: "inf".to_string(), single: false, number: None },
    ];
    assert_eq!(number(&parse_scalar_literal(FieldKind::F64, "1.50", &readings).unwrap()), "1.5");
    assert_eq!(number(&parse_scalar_literal(FieldKind::F32, "0.1", &readings).unwrap()), "0.10000000149011612");
    assert_eq!(
        parse_scalar_literal(FieldKind::F64, "0.1", &readings).unwrap_err().to_text(),
        "expect number, got \"0.1\""
    );
    assert_eq!(
        parse_scalar_literal(FieldKind::F64, "inf", &readings).unwrap_err().to_text(),
        "expect number, got \"inf\""
    );
}

#[test]
fn enum_tags() {
    let none: Vec<FloatReading> = Vec::new();
    let vs = parse_enum(FieldKind::String, "fast, slow", &none).unwrap();
    assert_eq!(vs.len(), 2);
    assert!(matches!(&vs[1], Json::Str(s) if s == "slow"));
    let vs = parse_enum(FieldKind::I32, "1,2,3", &none).unwrap();
    assert_eq!(number(&vs[2]), "3");
    assert_eq!(parse_enum(FieldKind::String, "a,,b", &none).unwrap_err().to_text(), "enum contains an empty value");
    assert_eq!(
        parse_enum(FieldKind::Slice, "a,b", &none).unwrap_err().to_text(),
        "enum is only supported on scalar fields, got Slice"
    );
    assert_eq!(parse_enum(FieldKind::U8, "1,300", &none).unwrap_err().to_text(), "value 300 overflows U8");
}

#[test]
fn default_tags() {
    let none: Vec<FloatReading> = Vec::new();
    let d = parse_default(&spec("t", FieldKind::Duration), "1h30m", &none).unwrap();
    assert!(matches!(d, Json::Str(s) if s == "1h30m"));
    let e = parse_default(&spec("t", FieldKind::Duration), "soon", &none).unwrap_err();
    assert!(e.to_text().starts_with("bad default \"soon\": "), "{}", e.to_text());
    let d = parse_default(&spec("t", FieldKind::Time), "1996-12-19T16:39:57-08:00", &none).unwrap();
    assert!(matches!(d, Json::Str(_)));
    let e = parse_default(&spec("t", FieldKind::Time), "yesterday", &none).unwrap_err();
    assert_eq!(
        e.to_text(),
        "bad default \"yesterday\": expect RFC3339 string, got \"yesterday\": premature end of input"
    );
    let mut list = spec("t", FieldKind::Slice);
    list.elem = Some(Box::new(synthetic(FieldKind::I32, Vec::new(), None)));
    match parse_default(&list, "1, 2,,3", &none).unwrap() {
        Json::Array(items) => {
            assert_eq!(items.len(), 3);
            assert_eq!(number(&items[2]), "3");
        }
        other => panic!("{other:?}"),
    }
    assert_eq!(parse_default(&list, "1,x", &none).unwrap_err().to_text(), "element \"x\": expect integer, got \"x\"");
    assert_eq!(parse_default(&spec("t", FieldKind::Slice), "1", &none).unwrap_err().to_text(), "slice without elem kind");
    let mut opt = spec("t", FieldKind::Ptr);
    opt.elem = Some(Box::new(synthetic(FieldKind::U8, Vec::new(), None)));
    assert_eq!(number(&parse_default(&opt, "7", &none).unwrap()), "7");
    assert_eq!(parse_default(&opt, "256", &none).unwrap_err().to_text(), "bad default \"256\": value 256 overflows U8");
    assert_eq!(
        parse_default(&spec("t", FieldKind::Struct), "x", &none).unwrap_err().to_text(),
        "unsupported scalar kind Struct for default \"x\""
    );
    assert!(matches!(parse_default(&spec("t", FieldKind::Bytes), "aGk=", &none).unwrap(), Json::Str(_)));
}

#[test]
fn datetime_check() {
    assert!(parse_datetime("2024-01-02T03:04:05Z").is_ok());
    assert_eq!(
        parse_datetime("2024-01-02").unwrap_err(),
        "expect RFC3339 string, got \"2024-01-02\": premature end of input"
    );
}

#[test]
fn enum_on_slice_rejected() {
    let mut xs = spec("xs", FieldKind::Slice);
    xs.desc = "x";
    xs.enum_s = "a,b";
    xs.elem = Some(Box::new(synthetic(FieldKind::String, Vec::new(), None)));
    let err = meta_from_spec(&xs, &Vec::new()).unwrap_err();
    assert!(err.to_text().contains("scalar"), "{}", err.to_text());
}

#[test]
fn metadata_from_descriptions() {
    let mut count = spec("count", FieldKind::I32);
    count.desc = "计数";
    count.default_s = "18";
    count.cli_s = "shorthand=c";
    let mut mode = spec("mode", FieldKind::String);
    mode.enum_s = "fast,slow";
    mode.http_s = "query";
    let mut ratio = spec("ratio", FieldKind::F64);
    ratio.default_s = "0.5";
    let mut root = spec("Args", FieldKind::Struct);
    root.children = vec![count, mode, ratio];

    let wanted = float_literals(&root);
    assert_eq!(wanted, vec![("0.5".to_string(), false)]);
    let readings = vec![FloatReading { text: "0.5".to_string(), single: false, number: Some("0.5".to_string()) }];
    let m = meta_from_spec(&root, &readings).unwrap();
    assert_eq!(m.children.len(), 3);
    let c = &m.children[0];
    assert_eq!(c.description, "计数");
    assert_eq!(c.cli.shorthand, Some('c'));
    assert_eq!(number(c.default.as_ref().unwrap()), "18");
    assert_eq!(m.children[1].enum_values.len(), 2);
    assert_eq!(m.children[1].http.location, "query");
    assert_eq!(number(m.children[2].default.as_ref().unwrap()), "0.5");

    let e = meta_from_spec(&root, &Vec::new()).unwrap_err();
    assert_eq!(e.to_text(), "bad default \"0.5\": expect number, got \"0.5\"");
}

#[test]
fn metadata_refusals_in_tag_order() {
    let mut f = spec("f", FieldKind::I8);
    f.cli_s = "bogus";
    f.http_s = "cookie";
    let e = meta_from_spec(&f, &Vec::new()).unwrap_err();
    assert!(e.to_text().starts_with("unknown cli option"), "{}", e.to_text());
    f.cli_s = "";
    assert_eq!(
        meta_from_spec(&f, &Vec::new()).unwrap_err().to_text(),
        "unknown http location \"cookie\" (want query|path|header|form|body)"
    );
    f.http_s = "";
    f.validate_s = "explode";
    assert!(meta_from_spec(&f, &Vec::new()).unwrap_err().to_text().starts_with("unsupported validate rule"));
    f.validate_s = "min=1";
    f.default_s = "300";
    assert_eq!(meta_from_spec(&f, &Vec::new()).unwrap_err().to_text(), "bad default \"300\": value 300 overflows I8");
    let mut outer = spec("outer", FieldKind::Struct);
    let mut inner = spec("inner", FieldKind::Bool);
    inner.default_s = "maybe";
    outer.children = vec![spec("ok", FieldKind::String), inner];
    assert_eq!(
        meta_from_spec(&outer, &Vec::new()).unwrap_err().to_text(),
        "bad default \"maybe\": expect boolean, got \"maybe\""
    );
}

#[test]
fn meta_length_and_element() {
    let mut list = spec("tags", FieldKind::Slice);
    list.elem = Some(Box::new(synthetic(FieldKind::String, Vec::new(), None)));
    let m = meta_from_spec(&list, &Vec::new()).unwrap();
    assert_eq!(elem_ref(&m).map(|e| e.kind), Some(FieldKind::String));
    assert!(elem_ref(m.elem.as_ref().unwrap()).is_none());
    let metas = vec![m];
    assert!(expect_meta_len(&metas, 1).is_ok());
    let e = expect_meta_len(&metas, 2).unwrap_err();
    assert_eq!(e.to_text(), "internal: field meta len 1 != 2");
    assert_eq!(classify(&e), Some(Kind::Internal));
}

#[test]
fn value_sources_in_order() {
    let mut mode = spec("mode", FieldKind::String);
    mode.enum_s = "fast,slow";
    let m = meta_from_spec(&mode, &Vec::new()).unwrap();
    let given = vec![("mode".to_string(), Json::Str("fast".to_string()))];
    assert_eq!(field_source(&m, &given, "mode", "mode").unwrap(), Source::Given);
    let null = vec![("mode".to_string(), Json::Null)];
    assert_eq!(field_source(&m, &null, "mode", "mode").unwrap(), Source::Zero);
    assert_eq!(field_source(&m, &Vec::new(), "mode", "mode").unwrap(), Source::Zero);

    let mut age = spec("age", FieldKind::I32);
    age.default_s = "18";
    let a = meta_from_spec(&age, &Vec::new()).unwrap();
    assert_eq!(field_source(&a, &null, "age", "age").unwrap(), Source::Default);

    let mut tag = spec("tag", FieldKind::String);
    tag.required = true;
    let t = meta_from_spec(&tag, &Vec::new()).unwrap();
    let e = field_source(&t, &null, "tag", "tag").unwrap_err();
    assert_eq!(e.to_text(), "field \"tag\" is required");
    assert_eq!(classify(&e), Some(Kind::InvalidInput));
}

#[test]
fn decode_refusals_name_the_field() {
    let mut mode = spec("mode", FieldKind::I32);
    mode.enum_s = "1, 2";
    let m = meta_from_spec(&mode, &Vec::new()).unwrap();
    let e = enum_refusal(&m);
    assert_eq!(e.to_text(), "field \"mode\": value must be one of [1 2]");
    assert_eq!(classify(&e), Some(Kind::InvalidInput));
    let mut word = spec("word", FieldKind::String);
    word.enum_s = "a b,c";
    let w = meta_from_spec(&word, &Vec::new()).unwrap();
    assert_eq!(enum_refusal(&w).to_text(), "field \"word\": value must be one of [a b c]");
    let inner = parse_scalar_literal(FieldKind::U8, "-1", &Vec::new()).unwrap_err();
    let e = field_error(&m, &inner);
    assert_eq!(e.to_text(), "field \"mode\": expect unsigned integer, got \"-1\"");
    assert_eq!(classify(&e), Some(Kind::Internal));
}

#[test]
fn output_schema_is_optional_and_serde_aware() {
    let id = spec("id", FieldKind::I64);
    let name = spec("name", FieldKind::String);
    let mut tags = spec("tags", FieldKind::Slice);
    tags.required = true;
    tags.elem = Some(Box::new(synthetic(FieldKind::String, Vec::new(), None)));
    let fields: Vec<_> = [id, name, tags].iter().map(|f| meta_from_spec(f, &Vec::new()).unwrap()).collect();
    let s = build_schema(&fields);
    assert_eq!(s.ty.as_deref(), Some("object"));
    let props = s.properties.as_ref().unwrap();
    assert_eq!(props[0].0, "id");
    assert_eq!(props[0].1.ty.as_deref(), Some("integer"));
    assert_eq!(props[2].0, "tags");
    assert_eq!(props[2].1.ty.as_deref(), Some("array"));
    assert_eq!(s.required, Some(vec!["tags".to_string()]));
    assert_eq!(wire_name("id", None, Some("id"), None), "id");
}
