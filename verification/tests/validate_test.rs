use xyz_rust::field::{CliField, FieldKind, FieldMeta, HTTPField, MCPField};
use xyz_rust::validate::{
    check_opt_rules, check_rules, check_vec_rules, is_float_text, parse_validate_tag, rule_outcome, split_whitespace,
};

#[test]
fn unsupported_validate_rule_rejected_at_registration() {
    let err = parse_validate_tag("explode=1").unwrap_err();
    assert!(err.to_text().contains("unsupported validate rule"), "{}", err.to_text());
    assert_eq!(
        err.to_text(),
        "unsupported validate rule \"explode\" (supported: required, omitempty, min, max, len, gt, gte, lt, lte, oneof, email)"
    );
}

#[test]
fn validate_tag_forms() {
    assert!(parse_validate_tag("  ").unwrap().is_empty());
    let rules = parse_validate_tag("required, min=2 ,oneof=fast  slow,,email,gt=1.5").unwrap();
    let keys: Vec<&str> = rules.iter().map(|r| r.key.as_str()).collect();
    assert_eq!(keys, vec!["required", "min", "oneof", "email", "gt"]);
    assert_eq!(rules[1].num.as_deref(), Some("2"));
    assert!(rules[1].args.is_empty());
    assert_eq!(rules[2].args, vec!["fast".to_string(), "slow".to_string()]);
    assert_eq!(rules[2].num, None);
    assert_eq!(rules[4].num.as_deref(), Some("1.5"));
    assert_eq!(
        parse_validate_tag("min=1 2").unwrap_err().to_text(),
        "validate rule \"min\" needs exactly one numeric argument, got \"1 2\""
    );
    assert_eq!(
        parse_validate_tag("max").unwrap_err().to_text(),
        "validate rule \"max\" needs exactly one numeric argument, got \"\""
    );
    assert_eq!(
        parse_validate_tag("lt=abc").unwrap_err().to_text(),
        "validate rule \"lt\": \"abc\" is not a number"
    );
}

#[test]
fn float_texts_follow_std() {
    for s in ["1", "-2.5", "+.5", "1.", "1e10", "1E-3", "2.5e+4", "inf", "-Infinity", "NaN"] {
        assert!(is_float_text(s), "{s}");
        assert!(s.parse::<f64>().is_ok(), "{s}");
    }
    for s in ["", ".", "e5", "1e", "1e+", "--1", "1.2.3", "0x10", "infinit", " 1", "1_000"] {
        assert!(!is_float_text(s), "{s}");
        assert!(s.parse::<f64>().is_err(), "{s}");
    }
}

#[test]
fn whitespace_words() {
    assert_eq!(split_whitespace("  a b\tcc \n"), vec!["a".to_string(), "b".to_string(), "cc".to_string()]);
    assert!(split_whitespace("   ").is_empty());
    assert_eq!(split_whitespace("x"), vec!["x".to_string()]);
}

fn rule_field(json: &str) -> FieldMeta {
    FieldMeta {
        name: "Speed".to_string(),
        json_name: json.to_string(),
        kind: FieldKind::String,
        description: String::new(),
        required: false,
        secret: false,
        validate: String::new(),
        enum_values: Vec::new(),
        default: None,
        skip: false,
        cli: CliField { shorthand: None, positional: false, hidden: false, skip: false, env_var: None, default: None },
        http: HTTPField { location: "query".to_string(), name: String::new(), default: None },
        mcp: MCPField { default: None },
        elem: None,
        children: Vec::new(),
    }
}

#[test]
fn rule_walk_required_and_omitempty() {
    let f = rule_field("speed");
    let rules = parse_validate_tag("required,oneof=fast slow").unwrap();
    let e = check_rules(&f, &rules, true, &vec![true, true]).unwrap_err();
    assert_eq!(e.to_text(), "invalid value for field \"speed\": required");
    assert!(check_rules(&f, &rules, false, &vec![true, true]).is_ok());
    let e = check_rules(&f, &rules, false, &vec![true, false]).unwrap_err();
    assert_eq!(e.to_text(), "invalid value for field \"speed\": oneof");
    assert_eq!(xyz_rust::errors::classify(&e), Some(xyz_rust::errors::Kind::InvalidInput));

    let lax = parse_validate_tag("omitempty,min=3").unwrap();
    assert!(check_rules(&f, &lax, true, &vec![false, false]).is_ok());
    let e = check_rules(&f, &lax, false, &vec![true, false]).unwrap_err();
    assert_eq!(e.to_text(), "invalid value for field \"speed\": min");
    assert!(check_rules(&f, &Vec::new(), true, &Vec::new()).is_ok());
}

#[test]
fn rule_walk_names_rust_field_without_json_name() {
    let f = rule_field("");
    let rules = parse_validate_tag("email").unwrap();
    let e = check_rules(&f, &rules, false, &vec![false]).unwrap_err();
    assert_eq!(e.to_text(), "invalid value for field \"Speed\": email");
}

#[test]
fn optional_rule_walk() {
    let f = rule_field("limit");
    let rules = parse_validate_tag("gte=1").unwrap();
    let e = check_opt_rules(&f, &rules, None).unwrap_err();
    assert_eq!(e.to_text(), "invalid value for field \"limit\": gte");
    assert!(check_opt_rules(&f, &rules, Some(&vec![true])).is_ok());
    let lax = parse_validate_tag("omitempty,gte=1").unwrap();
    assert!(check_opt_rules(&f, &lax, None).is_ok());
    let req = parse_validate_tag("required").unwrap();
    assert_eq!(
        check_opt_rules(&f, &req, None).unwrap_err().to_text(),
        "invalid value for field \"limit\": required"
    );
}

#[test]
fn list_rule_walk() {
    let f = rule_field("tags");
    let rules = parse_validate_tag("required,min=1,oneof=[a] [c]").unwrap();
    assert!(check_vec_rules(&f, &rules, 1, "[a]", &vec![true, true, true]).is_ok());
    let e = check_vec_rules(&f, &rules, 2, "[a c]", &vec![true, true, true]).unwrap_err();
    assert_eq!(e.to_text(), "invalid value for field \"tags\": oneof");
    let e = check_vec_rules(&f, &rules, 0, "[]", &vec![true, false, true]).unwrap_err();
    assert_eq!(e.to_text(), "invalid value for field \"tags\": required");
    let e = check_vec_rules(&f, &rules, 1, "[a]", &vec![true, false, true]).unwrap_err();
    assert_eq!(e.to_text(), "invalid value for field \"tags\": min");
    let odd = parse_validate_tag("gt=1").unwrap();
    let e = check_vec_rules(&f, &odd, 3, "[x y z]", &vec![true]).unwrap_err();
    assert_eq!(e.to_text(), "invalid value for field \"tags\": gt");
    let lax = parse_validate_tag("omitempty,len=2").unwrap();
    assert!(check_vec_rules(&f, &lax, 0, "[]", &vec![false, false]).is_ok());
}

#[test]
fn rule_outcomes_by_kind() {
    let rs = parse_validate_tag("min=2,max=5,gt=1.5,oneof=fast slow,email,len=3").unwrap();
    assert_eq!(rule_outcome(&rs[0], Some(3), None, "abc", true), Some(true));
    assert_eq!(rule_outcome(&rs[0], Some(1), None, "a", true), Some(false));
    assert_eq!(rule_outcome(&rs[0], None, Some(9), "9", false), Some(false));
    assert_eq!(rule_outcome(&rs[1], Some(6), None, "abcdef", true), Some(false));
    assert_eq!(rule_outcome(&rs[2], None, Some(2), "2", false), None);
    assert_eq!(rule_outcome(&rs[2], None, None, "x", true), Some(false));
    assert_eq!(rule_outcome(&rs[3], Some(4), None, "fast", true), Some(true));
    assert_eq!(rule_outcome(&rs[3], Some(4), None, "quick", true), Some(false));
    assert_eq!(rule_outcome(&rs[4], Some(5), None, "a@b.c", true), Some(true));
    assert_eq!(rule_outcome(&rs[4], Some(5), None, "a@b.c", false), Some(false));
    assert_eq!(rule_outcome(&rs[5], Some(3), None, "abc", true), Some(true));
    let gt = parse_validate_tag("gt=1").unwrap();
    assert_eq!(rule_outcome(&gt[0], None, Some(2), "2", false), Some(true));
    assert_eq!(rule_outcome(&gt[0], None, Some(1), "1", false), Some(false));
}
