use xyz_rust::cli::app::{exit_code_of, plan, CliAction};
use xyz_rust::cli::help::print_help;
use xyz_rust::cli::tree::{build_tree, CliEntry, CliHints, CmdTree};
use xyz_rust::field::{CliField, FieldKind, FieldMeta, HTTPField, MCPField};
use xyz_rust::json::{pretty_json, Json};
use xyz_rust::lang::LangState;

fn field(name: &str, kind: FieldKind, required: bool, positional: bool, default: Option<Json>) -> FieldMeta {
    FieldMeta {
        name: name.to_string(),
        json_name: name.to_string(),
        kind,
        description: String::new(),
        required,
        secret: false,
        validate: String::new(),
        enum_values: Vec::new(),
        default,
        skip: false,
        cli: CliField {
            shorthand: None,
            positional,
            hidden: false,
            skip: false,
            env_var: None,
            default: None,
        },
        http: HTTPField { location: String::new(), name: String::new(), default: None },
        mcp: MCPField { default: None },
        elem: None,
        children: Vec::new(),
    }
}

fn hints() -> CliHints {
    CliHints {
        usage: String::new(),
        aliases: Vec::new(),
        hidden: false,
        default: false,
        skip: false,
        daemon: false,
        before: String::new(),
        after: String::new(),
        fields: Vec::new(),
    }
}

fn entry(name: &str, cli: CliHints, fields: Vec<FieldMeta>) -> CliEntry {
    CliEntry { name: name.to_string(), summary: String::new(), description: String::new(), cli, fields }
}

fn echo_entries() -> Vec<CliEntry> {
    vec![entry(
        "echo.hi",
        hints(),
        vec![
            field("s", FieldKind::String, true, false, None),
            field("n", FieldKind::I32, false, false, Some(Json::Number("1".to_string()))),
        ],
    )]
}

fn argv(v: &[&str]) -> Vec<String> {
    v.iter().map(|s| s.to_string()).collect()
}

fn run(tr: &CmdTree, entries: &[CliEntry], args: &[&str]) -> CliAction {
    let st = LangState::new();
    plan(tr, entries, &argv(args), &Vec::new(), &st, "app")
}

fn arg<'a>(m: &'a [(String, Json)], k: &str) -> Option<&'a Json> {
    m.iter().find(|(n, _)| n == k).map(|(_, v)| v)
}

fn as_str(v: Option<&Json>) -> String {
    match v {
        Some(Json::Str(s)) => s.clone(),
        other => panic!("not a string: {other:?}"),
    }
}

fn help_text(tr: &CmdTree, entries: &[CliEntry], n: usize) -> String {
    print_help(tr, entries, n, "app", &LangState::new())
}

fn build_error(entries: &[CliEntry]) -> String {
    match build_tree(entries) {
        Ok(_) => panic!("expected build error"),
        Err(e) => e.to_text(),
    }
}

#[test]
fn app_echo_success() {
    let es = echo_entries();
    let tr = build_tree(&es).unwrap();
    match run(&tr, &es, &["echo", "hi", "--s", "ab", "--n", "2"]) {
        CliAction::Invoke(_, e, m, json) => {
            assert_eq!(e, 0);
            assert!(!json);
            let s = as_str(arg(&m, "s"));
            let n: usize = as_str(arg(&m, "n")).parse().unwrap();
            assert_eq!(format!("{}\n", s.repeat(n.max(1))), "abab\n");
        }
        other => panic!("{other:?}"),
    }
}

#[test]
fn app_missing_required_exits_2() {
    let es = echo_entries();
    let tr = build_tree(&es).unwrap();
    match run(&tr, &es, &["echo", "hi"]) {
        CliAction::Invoke(_, e, m, _) => {
            // The required field is absent from the bound arguments; decoding
            // reports it as invalid input, which exits 2.
            assert!(arg(&m, "s").is_none());
            assert!(es[e].fields[0].required);
            assert_eq!(xyz_rust::errors::exit_code(xyz_rust::errors::Kind::InvalidInput), 2);
        }
        other => panic!("{other:?}"),
    }
}

#[test]
fn app_unknown_flag_exits_2() {
    let es = echo_entries();
    let tr = build_tree(&es).unwrap();
    match run(&tr, &es, &["echo", "hi", "--ghost"]) {
        CliAction::Fail(e) => {
            assert_eq!(exit_code_of(&e), 2);
            assert!(e.to_text().contains("unknown flag: --ghost"), "{}", e.to_text());
        }
        other => panic!("{other:?}"),
    }
}

#[test]
fn app_unknown_command_prints_help() {
    let es = echo_entries();
    let tr = build_tree(&es).unwrap();
    match run(&tr, &es, &["echo"]) {
        CliAction::Help(n) => {
            let out = help_text(&tr, &es, n);
            assert!(out.contains("Usage:"), "{out}");
        }
        other => panic!("{other:?}"),
    }
}

#[test]
fn app_version_flag() {
    let es = echo_entries();
    let tr = build_tree(&es).unwrap();
    assert!(matches!(run(&tr, &es, &["echo", "hi", "-v"]), CliAction::Version));
}

#[test]
fn app_json_flag() {
    let es = echo_entries();
    let tr = build_tree(&es).unwrap();
    match run(&tr, &es, &["echo", "hi", "--s", "x", "--json"]) {
        CliAction::Invoke(_, _, m, json) => {
            assert!(json);
            let mut out = pretty_json(&Json::Str(as_str(arg(&m, "s"))));
            out.push('\n');
            assert_eq!(out, "\"x\"\n");
        }
        other => panic!("{other:?}"),
    }
}

#[test]
fn aliases_resolve_like_subcommands() {
    let mut h = hints();
    h.usage = "add <a>".to_string();
    h.aliases = vec!["ua".to_string()];
    let es = vec![entry("user.add", h, vec![field("a", FieldKind::String, false, true, None)])];
    let tr = build_tree(&es).unwrap();
    match run(&tr, &es, &["user", "ua", "x"]) {
        CliAction::Invoke(_, e, m, _) => {
            assert_eq!(e, 0);
            assert_eq!(as_str(arg(&m, "a")), "x");
        }
        other => panic!("{other:?}"),
    }
}

#[test]
fn conflicting_alias_rejected_at_build() {
    let mut h = hints();
    h.aliases = vec!["one".to_string()];
    let es = vec![
        entry("a.one", hints(), vec![field("a", FieldKind::String, false, true, None)]),
        entry("a.two", h, vec![field("a", FieldKind::String, false, true, None)]),
    ];
    let err = build_error(&es);
    assert!(err.contains("alias"), "{err}");
}

#[test]
fn optional_after_required_positional_rejected() {
    let es = vec![entry(
        "p.x",
        hints(),
        vec![
            field("a", FieldKind::String, false, true, None),
            field("b", FieldKind::String, true, true, None),
        ],
    )];
    let err = build_error(&es);
    assert!(err.contains("must not follow optional"), "{err}");
}

#[test]
fn nested_struct_field_rejected_for_cli() {
    let mut sub = field("sub", FieldKind::Struct, false, false, None);
    sub.children = vec![field("x", FieldKind::I32, false, false, None)];
    let es = vec![entry("t.x", hints(), vec![sub])];
    let err = build_error(&es);
    assert!(err.contains("not supported"), "{err}");
}

#[test]
fn default_subcommand_forwards_all_args() {
    let mut h = hints();
    h.usage = "extract <name>".to_string();
    h.default = true;
    let es = vec![entry(
        "extract",
        h,
        vec![
            field("name", FieldKind::String, true, true, None),
            field("level", FieldKind::I32, false, false, Some(Json::Number("0".to_string()))),
        ],
    )];
    let tr = build_tree(&es).unwrap();
    match run(&tr, &es, &["./image.tar", "--level", "9"]) {
        CliAction::Invoke(_, _, m, _) => {
            assert_eq!(as_str(arg(&m, "name")), "./image.tar");
            assert_eq!(as_str(arg(&m, "level")), "9");
        }
        other => panic!("{other:?}"),
    }
    match run(&tr, &es, &["extract", "tarball.tar"]) {
        CliAction::Invoke(_, _, m, _) => {
            assert_eq!(as_str(arg(&m, "name")), "tarball.tar");
            assert!(arg(&m, "level").is_none());
        }
        other => panic!("{other:?}"),
    }
    match run(&tr, &es, &["-h"]) {
        CliAction::Help(n) => {
            assert_eq!(n, 0);
            let out = help_text(&tr, &es, n);
            assert!(out.contains("Usage:"), "{out}");
            assert!(out.contains("extract"), "{out}");
        }
        other => panic!("{other:?}"),
    }
    match run(&tr, &es, &["img.tar", "-h"]) {
        CliAction::Help(n) => {
            let out = help_text(&tr, &es, n);
            assert!(out.contains("extract <name> [flags]"), "{out}");
        }
        other => panic!("{other:?}"),
    }
}

#[test]
fn help_blocks_on_leaf_only() {
    let mut h = hints();
    h.before = "extract — unpack an image\nexamples below".to_string();
    h.after = "more: https://example.com/udf#extract".to_string();
    let es = vec![entry("extract", h, vec![field("x", FieldKind::String, false, false, None)])];
    let tr = build_tree(&es).unwrap();
    match run(&tr, &es, &["extract", "-h"]) {
        CliAction::Help(n) => {
            let out = help_text(&tr, &es, n);
            assert!(out.starts_with("extract — unpack an image\n"), "{out}");
            assert!(out.ends_with("more: https://example.com/udf#extract\n"), "{out}");
        }
        other => panic!("{other:?}"),
    }
    let mut h2 = hints();
    h2.before = "LEAFBLK".to_string();
    let es2 = vec![entry("user.add", h2, vec![field("x", FieldKind::String, false, false, None)])];
    let tr2 = build_tree(&es2).unwrap();
    match run(&tr2, &es2, &["user", "-h"]) {
        CliAction::Help(n) => assert!(!help_text(&tr2, &es2, n).contains("LEAFBLK")),
        other => panic!("{other:?}"),
    }
    match run(&tr2, &es2, &["user", "add", "-h"]) {
        CliAction::Help(n) => {
            let out = help_text(&tr2, &es2, n);
            assert!(out.starts_with("LEAFBLK\n"), "{out}");
        }
        other => panic!("{other:?}"),
    }
}

#[test]
fn duplicate_default_rejected_at_build() {
    let mut h1 = hints();
    h1.default = true;
    let mut h2 = hints();
    h2.default = true;
    let es = vec![
        entry("a.one", h1, vec![field("x", FieldKind::String, false, false, None)]),
        entry("a.two", h2, vec![field("x", FieldKind::String, false, false, None)]),
    ];
    let err = build_error(&es);
    assert!(err.contains("default conflicts"), "{err}");
}

#[test]
fn double_dash_terminator_guards_v_and_json() {
    let es = vec![entry("user.add", hints(), vec![field("a", FieldKind::String, true, true, None)])];
    let tr = build_tree(&es).unwrap();
    match run(&tr, &es, &["user", "add", "--", "-v"]) {
        CliAction::Invoke(_, _, m, json) => {
            assert!(!json);
            assert_eq!(as_str(arg(&m, "a")), "-v");
        }
        other => panic!("{other:?}"),
    }
    match run(&tr, &es, &["user", "add", "--", "--json"]) {
        CliAction::Invoke(_, _, m, json) => {
            assert!(!json);
            assert_eq!(as_str(arg(&m, "a")), "--json");
        }
        other => panic!("{other:?}"),
    }
    assert!(matches!(run(&tr, &es, &["-v"]), CliAction::Version));
}

#[test]
fn positional_min_max() {
    let es = vec![entry(
        "p.x",
        hints(),
        vec![
            field("a", FieldKind::String, true, true, None),
            field("b", FieldKind::String, false, true, None),
        ],
    )];
    let tr = build_tree(&es).unwrap();
    match run(&tr, &es, &["p", "x", "one", "two"]) {
        CliAction::Invoke(_, _, m, _) => {
            assert_eq!(format!("{}:{}", as_str(arg(&m, "a")), as_str(arg(&m, "b"))), "one:two");
        }
        other => panic!("{other:?}"),
    }
    match run(&tr, &es, &["p", "x"]) {
        CliAction::Fail(e) => {
            assert_eq!(exit_code_of(&e), 2);
            assert!(e.to_text().contains("positional argument count mismatch"), "{}", e.to_text());
        }
        other => panic!("{other:?}"),
    }
}

#[test]
fn help_text_exact_for_leaf() {
    let mut s = field("s", FieldKind::String, true, false, None);
    s.description = "content".to_string();
    s.cli.shorthand = Some('s');
    let mut n = field("n", FieldKind::I32, false, false, Some(Json::Number("1".to_string())));
    n.description = "times".to_string();
    let mut es = vec![entry("echo.hi", hints(), vec![s, n])];
    es[0].summary = "say hi".to_string();
    let tr = build_tree(&es).unwrap();
    let leaf = match run(&tr, &es, &["echo", "hi", "-h"]) {
        CliAction::Help(n) => n,
        other => panic!("{other:?}"),
    };
    let out = help_text(&tr, &es, leaf);
    assert_eq!(
        out,
        "say hi\n\nUsage:\n  app echo hi [flags]\n\nFlags:\n  -s, --s string  content\n  --n integer     times (default 1)\n\nGlobal Flags:\n  --json         output JSON instead of the human-readable form\n  -v, --version  print version information\n  -h, --help     print help\n"
    );
}
