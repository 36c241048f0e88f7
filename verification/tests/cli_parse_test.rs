use xyz_rust::cli::parse::{parse_flags, FlagDef, FlagKind};

fn def(name: &str, short: Option<char>, kind: FlagKind) -> FlagDef {
    FlagDef {
        long: name.to_string(),
        short,
        kind,
    }
}
fn str_def(name: &str, short: Option<char>) -> FlagDef {
    def(name, short, FlagKind::Str)
}
fn bool_def(name: &str, short: Option<char>) -> FlagDef {
    def(name, short, FlagKind::Bool)
}
fn slice_def(name: &str, short: Option<char>) -> FlagDef {
    def(name, short, FlagKind::Slice)
}
fn args(v: &[&str]) -> Vec<String> {
    v.iter().map(|s| s.to_string()).collect()
}

#[test]
fn long_short_and_eq_forms() {
    let defs = vec![str_def("query", Some('q')), bool_def("verbose", Some('v'))];
    let (vals, pos) =
        parse_flags(&defs, &args(&["--query", "x", "-v", "--query=y", "p"])).unwrap();
    assert!(vals[0].seen);
    assert_eq!(vals[0].str, "y");
    assert!(vals[1].boolean);
    assert_eq!(pos, vec!["p".to_string()]);
}

#[test]
fn slice_accumulates() {
    let defs = vec![slice_def("tags", Some('t'))];
    let (vals, _) = parse_flags(&defs, &args(&["--tags", "a", "-t", "b"])).unwrap();
    assert_eq!(vals[0].list, vec!["a", "b"]);
}

#[test]
fn bool_with_value() {
    let defs = vec![bool_def("v", None)];
    let (vals, _) = parse_flags(&defs, &args(&["--v=false"])).unwrap();
    assert!(!vals[0].boolean);
    let (vals, _) = parse_flags(&defs, &args(&["--v"])).unwrap();
    assert!(vals[0].boolean);
}

#[test]
fn double_dash_stops_parsing() {
    let defs = vec![str_def("a", None)];
    let (vals, pos) = parse_flags(&defs, &args(&["--a", "1", "--", "--a", "2"])).unwrap();
    assert_eq!(vals[0].str, "1");
    assert_eq!(pos, vec!["--a".to_string(), "2".to_string()]);
}

#[test]
fn unknown_flags_error() {
    let defs = vec![str_def("a", Some('a'))];
    let err = parse_flags(&defs, &args(&["--nope"])).unwrap_err();
    assert!(err.to_text().contains("unknown flag: --nope"), "{}", err.to_text());
    let err = parse_flags(&defs, &args(&["-z"])).unwrap_err();
    assert!(err.to_text().contains("unknown shorthand flag: -z"), "{}", err.to_text());
    let err = parse_flags(&defs, &args(&["--a"])).unwrap_err();
    assert!(err.to_text().contains("flag needs an argument: --a"), "{}", err.to_text());
}

#[test]
fn shorthand_with_attached_value() {
    let defs = vec![str_def("name", Some('n'))];
    let (vals, _) = parse_flags(&defs, &args(&["-nalice"])).unwrap();
    assert_eq!(vals[0].str, "alice");
    let (vals, _) = parse_flags(&defs, &args(&["-n=alice"])).unwrap();
    assert_eq!(vals[0].str, "alice");
}

#[test]
fn flag_edge_cases() {
    let defs = vec![bool_def("b", Some('b')), str_def("s", Some('s'))];
    // A lone dash is positional; a bad boolean is refused with its text.
    let (vals, pos) = parse_flags(&defs, &args(&["-", "-b=false"])).unwrap();
    assert_eq!(pos, vec!["-"]);
    assert!(vals[0].seen && !vals[0].boolean);
    let err = parse_flags(&defs, &args(&["--b=maybe"])).unwrap_err();
    assert_eq!(err.to_text(), "invalid boolean value \"maybe\" for --b");
    let err = parse_flags(&defs, &args(&["-bx"])).unwrap_err();
    assert_eq!(err.to_text(), "invalid boolean value \"x\" for -b");
    let err = parse_flags(&defs, &args(&["-s"])).unwrap_err();
    assert_eq!(err.to_text(), "flag needs an argument: -s");
    // The value of a long flag may itself hold '='.
    let (vals, _) = parse_flags(&defs, &args(&["--s=a=b"])).unwrap();
    assert_eq!(vals[1].str, "a=b");
    // A later definition with the same name wins.
    let dup = vec![str_def("x", None), str_def("x", None)];
    let (vals, _) = parse_flags(&dup, &args(&["--x", "1"])).unwrap();
    assert!(!vals[0].seen);
    assert_eq!(vals[1].str, "1");
}

#[test]
fn eq_form_matches_two_words() {
    let defs = vec![str_def("query", Some('q')), slice_def("tags", None), bool_def("verbose", Some('v'))];
    for tail in [&[][..], &["p", "--tags", "a"][..], &["--", "--query=z"][..]] {
        let mut a1 = vec!["-v", "--tags=x", "--query=y=1"];
        a1.extend_from_slice(tail);
        let mut a2 = vec!["-v", "--tags", "x", "--query", "y=1"];
        a2.extend_from_slice(tail);
        let r1 = parse_flags(&defs, &args(&a1)).unwrap();
        let r2 = parse_flags(&defs, &args(&a2)).unwrap();
        assert_eq!(format!("{r1:?}"), format!("{r2:?}"));
        assert_eq!(r1.0[0].str, "y=1");
    }
}
