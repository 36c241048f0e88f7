use xyz_rust::registry::Registry;

fn reg_with(names: &[&str]) -> Registry<String> {
    let mut r = Registry::new();
    for n in names {
        r.add(n.to_string(), format!("about {n}"), n.to_string()).unwrap();
    }
    r
}

#[test]
fn add_dup_is_error() {
    let mut r = reg_with(&["a.b"]);
    let err = r.add("a.b".to_string(), "again".to_string(), "x".to_string()).unwrap_err();
    assert!(err.to_text().contains("already registered"), "{}", err.to_text());
    assert_eq!(
        err.to_text(),
        "registry: name \"a.b\" already registered (existing summary \"about a.b\")"
    );
    assert_eq!(r.get("a.b"), Some(&"a.b".to_string()));
    let err = r.add(String::new(), String::new(), "y".to_string()).unwrap_err();
    assert_eq!(err.to_text(), "registry: entry has empty name");
}

#[test]
fn names_and_all_sorted() {
    let r = reg_with(&["c.x", "a.y", "b.z"]);
    assert_eq!(r.names(), vec!["a.y", "b.z", "c.x"]);
    let all = r.all();
    assert_eq!(all.iter().map(|e| e.as_str()).collect::<Vec<_>>(), vec!["a.y", "b.z", "c.x"]);
    let sums = r.summaries();
    assert_eq!(sums[0], ("a.y".to_string(), "about a.y".to_string()));
}

#[test]
fn get_hit_and_miss() {
    let r = reg_with(&["x.y"]);
    assert!(r.get("x.y").is_some());
    assert!(r.get("nope").is_none());
}

#[test]
fn order_is_by_character_code() {
    let r = reg_with(&["b", "B", "a.b", "a", "ab", "é"]);
    assert_eq!(r.names(), vec!["B", "a", "a.b", "ab", "b", "é"]);
    let empty: Registry<u8> = Registry::new();
    assert!(empty.names().is_empty());
}
