use xyz_rust::cli::completion::print_completion;
use xyz_rust::cli::help::write_help_block;
use xyz_rust::command::check_entry_name;
use xyz_rust::config::Capabilities;
use xyz_rust::lang::{self, LangState, XyzLang};
use xyz_rust::overview::{print_overview, write_block};
use xyz_rust::rename::{apply, wire_name};

fn words(v: &[&str]) -> Vec<String> {
    v.iter().map(|s| s.to_string()).collect()
}

#[test]
fn completion_bash_contains_words() {
    let (code, out, _) = print_completion(&words(&["echo"]), "app", "bash");
    assert_eq!(code, 0);
    assert!(out.contains("compgen -W"), "{out}");
    assert!(out.contains("echo"), "{out}");
}

#[test]
fn completion_unknown_shell_exits_2() {
    let (code, out, err) = print_completion(&words(&["echo"]), "app", "tcsh");
    assert_eq!(code, 2);
    assert!(out.is_empty());
    assert_eq!(err, "unknown shell \"tcsh\" (want bash|zsh|fish)\n");
}

#[test]
fn completion_scripts_exact() {
    let top = words(&["user", "echo", "user"]);
    let (_, bash, _) = print_completion(&top, "app", "bash");
    assert_eq!(
        bash,
        "# app completion for bash\n_app_completions() {\n  local cur\n  cur=\"${COMP_WORDS[COMP_CWORD]}\"\n  COMPREPLY=( $(compgen -W \"user echo completion help serve mcp -h --help -v --version\" -- \"$cur\") )\n}\ncomplete -F _app_completions app\n"
    );
    let (_, zsh, _) = print_completion(&top, "app", "zsh");
    assert_eq!(
        zsh,
        "#compdef app\n_app_completions() {\n  local -a cmds\n  cmds=(user echo completion help serve mcp -h --help -v --version)\n  _describe 'app' cmds\n}\ncompdef _app_completions app\n"
    );
    let (_, fish, _) = print_completion(&top, "app", "fish");
    assert_eq!(
        fish,
        "complete -c app -f -a user\ncomplete -c app -f -a echo\ncomplete -c app -f -a completion\ncomplete -c app -f -a help\ncomplete -c app -f -a completion\n"
    );
}

#[test]
fn help_and_overview_blocks() {
    assert_eq!(write_block(""), "");
    assert_eq!(write_block("a\nb\n\n\n"), "a\nb\n");
    assert_eq!(write_help_block("tail"), "tail\n");
}

#[test]
fn overview_help_blocks() {
    let st = LangState::new();
    let entries = vec![("a.b".to_string(), "does b".to_string())];
    let before = "myapp v1.2.3 — do the thing\nhttps://github.com/me/myapp";
    let after = "Need help? https://github.com/me/myapp#faq";
    let out = print_overview(&st, &entries, "serve", "mcp", Capabilities::default(), before, after);
    assert!(out.starts_with(&format!("{before}\n")), "{out}");
    assert!(out.ends_with(&format!("{after}\n")), "{out}");
    let a = print_overview(&st, &entries, "serve", "mcp", Capabilities::default(), "", "");
    let b = print_overview(&st, &entries, "serve", "mcp", Capabilities::default(), "", "");
    assert_eq!(a, b);
    let c = print_overview(&st, &[], "serve", "mcp", Capabilities::default(), "", "tail");
    assert!(c.ends_with("tail\n"));
    let mut zh = LangState::new();
    lang::set(&mut zh, XyzLang::ZhCn, None);
    let d = print_overview(&zh, &entries, "serve", "mcp", Capabilities::default(), "a\nb\n\n\n", "");
    assert!(d.starts_with("a\nb\n用法"), "{d:?}");
}

#[test]
fn overview_command_table() {
    let st = LangState::new();
    let entries = vec![
        ("a.b".to_string(), "first".to_string()),
        ("long.name".to_string(), "second".to_string()),
    ];
    let out = print_overview(&st, &entries, "serve", "mcp", Capabilities::default(), "", "");
    assert!(out.contains("\n  a.b        first\n  long.name  second\n"), "{out}");
    assert!(out.contains("(not compiled in)") || out.contains("serve"), "{out}");
    let no_cli = Capabilities {
        no_cli: true,
        ..Default::default()
    };
    let hidden = print_overview(&st, &entries, "serve", "mcp", no_cli, "", "");
    assert!(!hidden.contains("a.b"), "{hidden}");
}

#[test]
fn entry_names() {
    assert!(check_entry_name("user.add").is_ok());
    assert!(check_entry_name("a-b_c.9").is_ok());
    assert!(check_entry_name(&"a".repeat(128)).is_ok());
    assert!(check_entry_name(&"a".repeat(129)).is_err());
    assert!(check_entry_name("").is_err());
    assert!(check_entry_name(".x").is_err());
    let e = check_entry_name("名字").unwrap_err();
    assert_eq!(
        e.to_text(),
        "name must match ^[A-Za-z0-9][A-Za-z0-9._-]{0,127}$, got \"名字\""
    );
}

#[test]
fn rename_styles() {
    assert_eq!(apply("camelCase", "user_name"), "userName");
    assert_eq!(apply("PascalCase", "user_name"), "UserName");
    assert_eq!(apply("snake_case", "userName"), "user_name");
    assert_eq!(apply("kebab-case", "HTMLParser"), "html-parser");
    assert_eq!(apply("SCREAMING_SNAKE_CASE", "fooBar"), "FOO_BAR");
    assert_eq!(apply("lowercase", "foo_bar"), "foobar");
    assert_eq!(apply("UPPERCASE", "foo_bar"), "FOOBAR");
    assert_eq!(apply("weird", "foo_bar"), "foo_bar");
    assert_eq!(apply("snake_case", "v2Name"), "v2name");
    assert_eq!(apply("camelCase", "__"), "__");
}

#[test]
fn wire_names_in_precedence_order() {
    assert_eq!(wire_name("user_name", Some("who"), Some("u"), Some("camelCase")), "who");
    assert_eq!(wire_name("user_name", None, Some("u"), Some("camelCase")), "u");
    assert_eq!(wire_name("user_name", None, None, Some("camelCase")), "userName");
    assert_eq!(wire_name("user_name", None, None, Some("SCREAMING_SNAKE_CASE")), "USER_NAME");
    assert_eq!(wire_name("user_name", None, None, None), "user_name");
}
