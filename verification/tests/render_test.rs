use xyz_rust::cli::render::{format_cell, render_text, NumberShown};
use xyz_rust::json::Json;

fn num(t: &str) -> Json {
    Json::Number(t.to_string())
}

fn s(t: &str) -> Json {
    Json::Str(t.to_string())
}

fn obj(ms: Vec<(&str, Json)>) -> Json {
    Json::Object(ms.into_iter().map(|(k, v)| (k.to_string(), v)).collect())
}

#[test]
fn render_table_aligned() {
    let v = Json::Array(vec![
        obj(vec![("id", num("1")), ("name", s("a"))]),
        obj(vec![("id", num("22")), ("name", s("bb"))]),
    ]);
    let out = render_text(&v, &Vec::new());
    let lines: Vec<&str> = out.lines().collect();
    assert_eq!(lines[0], "id  name");
    assert_eq!(lines[1], "--  ----");
    assert_eq!(lines[2], "1   a   ");
    assert_eq!(lines[3], "22  bb  ");
}

#[test]
fn render_scalars_and_kvs() {
    let none: Vec<NumberShown> = Vec::new();
    assert_eq!(render_text(&Json::Null, &none), "");
    let mut out = String::new();
    out.push_str(&render_text(&s("hi"), &none));
    out.push_str(&render_text(&num("5"), &none));
    out.push_str(&render_text(&Json::Bool(true), &none));
    out.push_str(&render_text(&num("2.5"), &none));
    out.push_str(&render_text(&Json::Array(vec![num("1"), num("2")]), &none));
    assert_eq!(out, "hi\n5\ntrue\n2.5\n1\n2\n");
    let shown = vec![NumberShown { json: "3.0".to_string(), shown: "3".to_string() }];
    assert_eq!(render_text(&num("3.0"), &shown), "3\n");
    let kv = obj(vec![("k", s("v")), ("long", num("1"))]);
    assert_eq!(render_text(&kv, &none), "k     v\nlong  1\n");
}

#[test]
fn format_cell_variants() {
    let none: Vec<NumberShown> = Vec::new();
    assert_eq!(format_cell(&Json::Null, &none), "");
    assert_eq!(format_cell(&Json::Array(vec![num("1"), s("a")]), &none), "[1 a]");
    assert_eq!(format_cell(&obj(vec![("a", num("1"))]), &none), "{\"a\":1}");
}

#[test]
fn cjk_padding_matches_go_width_semantics() {
    let v = obj(vec![("\u{540d}\u{5b57}", s("v"))]);
    assert_eq!(render_text(&v, &Vec::new()), "\u{540d}\u{5b57}      v\n");
}

#[test]
fn render_generic_serialize() {
    let v = obj(vec![("z", num("1")), ("a", s("x"))]);
    assert_eq!(render_text(&v, &Vec::new()), "z  1\na  x\n");
}

#[test]
fn table_rows_of_mixed_items() {
    let v = Json::Array(vec![obj(vec![("k", s("x")), ("n", num("1"))]), obj(vec![("k", s("long"))]), num("7")]);
    assert_eq!(render_text(&v, &Vec::new()), "k     n\n----  -\nx     1\nlong   \n7     7\n");
    assert_eq!(render_text(&Json::Array(vec![obj(vec![])]), &Vec::new()), "");
    assert_eq!(render_text(&Json::Array(vec![]), &Vec::new()), "");
}
