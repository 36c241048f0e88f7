use std::time::Duration;
use xyz_rust::builtins;
use xyz_rust::builtins::{merge_tokens, parse_serve_args, split_versions};
use xyz_rust::config::Config;
use xyz_rust::logx::Level;

fn args(v: &[&str]) -> Vec<String> {
    v.iter().map(|s| s.to_string()).collect()
}

#[test]
fn strip_xyz_flags() {
    let mut cfg = Config {
        bearer_tokens: vec!["code-tok".into()],
        ..Default::default()
    };
    let rest = builtins::strip_xyz_flags(
        args(&[
            "--xyz.bearer=a,b",
            "mcp",
            "stdio",
            "--xyz.addr=:9090",
            "--xyz.bearer=b",
        ]),
        &mut cfg,
    )
    .unwrap();
    assert_eq!(cfg.addr, ":9090");
    assert_eq!(cfg.bearer_tokens, vec!["code-tok", "a", "b"]);
    assert_eq!(rest, args(&["mcp", "stdio"]));

    let mut cfg2 = Config::default();
    let rest2 = builtins::strip_xyz_flags(args(&["--xyz.bearer", "x,,y", "echo"]), &mut cfg2).unwrap();
    assert_eq!(cfg2.bearer_tokens, vec!["x", "y"]);
    assert_eq!(rest2, args(&["echo"]));

    let mut cfg3 = Config::default();
    let rest3 = builtins::strip_xyz_flags(
        args(&[
            "serve",
            "--xyz.log-level=debug",
            "--xyz.timeout",
            "45s",
            "--xyz.tls-cert=a.pem",
            "--xyz.tls-key",
            "k.pem",
            "--xyz.cors=x,y,z",
        ]),
        &mut cfg3,
    )
    .unwrap();
    assert_eq!(cfg3.log_level, Level::Debug);
    assert_eq!(cfg3.timeout, Duration::from_secs(45));
    assert_eq!(cfg3.cert_file, "a.pem");
    assert_eq!(cfg3.key_file, "k.pem");
    assert_eq!(cfg3.cors_origins, vec!["x", "y", "z"]);
    assert_eq!(rest3, args(&["serve"]));

    assert!(builtins::strip_xyz_flags(args(&["--xyz.log-level=verbose"]), &mut Config::default()).is_err());
    assert!(builtins::strip_xyz_flags(args(&["--xyz.timeout=nope"]), &mut Config::default()).is_err());
}

#[test]
fn parse_serve_args_bare_flags() {
    let cfg = parse_serve_args(
        &args(&["--addr", ":9000", "--bearer=a,b", "--timeout=30s", "--cors", "x"]),
        Config::default(),
    );
    assert_eq!(cfg.addr, ":9000");
    assert_eq!(cfg.bearer_tokens, vec!["a", "b"]);
    assert_eq!(cfg.timeout, Duration::from_secs(30));
    assert_eq!(cfg.cors_origins, vec!["x"]);
    let cfg2 = parse_serve_args(&[], Config::default());
    assert_eq!(cfg2.addr, ":8080");
}

#[test]
fn merge_tokens_keeps_order_and_drops_duplicates() {
    let r = merge_tokens(args(&["a", "b"]), "b, c,,a ,d");
    assert_eq!(r, vec!["a", "b", "c", "d"]);
    let r = merge_tokens(vec![], "");
    assert!(r.is_empty());
}

#[test]
fn split_versions_trims_and_drops_empty() {
    assert_eq!(split_versions(" 2025-11-25 ,, 2026-07-28"), vec!["2025-11-25", "2026-07-28"]);
    assert!(split_versions("").is_empty());
}
