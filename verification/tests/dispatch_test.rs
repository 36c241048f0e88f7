use xyz_rust::config::{Capabilities, Config, ModeWords};
use xyz_rust::ctx::Ctx;
use xyz_rust::dispatch::{
    check_reserved, cli_frontend_compiled, http_frontend_compiled, mcp_frontend_compiled,
    resolve_modes, route, top_segment_of, Route,
};
use xyz_rust::lang::LangState;
use xyz_rust::logx::{Level, LogState};
use xyz_rust::version::{set_version, version, VersionCell, CRATE_VERSION};

fn args(v: &[&str]) -> Vec<String> {
    v.iter().map(|s| s.to_string()).collect()
}

fn go(names: &[&str], argv: &[&str], mut cfg: Config) -> (Route, Config, LogState) {
    let mut log = LogState::new();
    let lang = LangState::new();
    let r = route(&args(names), args(argv), &mut cfg, &mut log, &lang);
    (r, cfg, log)
}

fn code(r: &Route) -> Option<i32> {
    match r {
        Route::Exit(c, _) => Some(*c),
        Route::Version | Route::Overview => Some(0),
        _ => None,
    }
}

#[test]
fn run_overview_forms() {
    for argv in [vec![], vec!["help"], vec!["--help"], vec!["-h"]] {
        let (r, _, _) = go(&["a.b"], &argv, Config::default());
        assert!(matches!(r, Route::Overview), "{argv:?}: {r:?}");
    }
}

#[test]
fn run_empty_registry_is_noop() {
    for argv in [vec![], vec!["help"], vec!["user", "add"], vec!["mcp", "stdio"], vec!["serve"]] {
        let (r, _, _) = go(&[], &argv, Config::default());
        match r {
            Route::Exit(0, m) => assert!(m.is_empty()),
            other => panic!("{other:?}"),
        }
    }
}

#[test]
fn run_custom_mode_words() {
    let cfg = || Config {
        modes: ModeWords {
            serve: "httpd".into(),
            mcp: "protocol".into(),
            help: "assist".into(),
        },
        ..Default::default()
    };
    let (r, _, _) = go(&["a.b"], &["assist"], cfg());
    assert!(matches!(r, Route::Overview));
    let mut no_http = cfg();
    no_http.capabilities.no_http = true;
    let (r, _, _) = go(&["a.b"], &["httpd"], no_http);
    match r {
        Route::Exit(1, m) => assert_eq!(
            m,
            "xyz[warn]: httpd mode was disabled (Config.Capabilities.NoHTTP)"
        ),
        other => panic!("{other:?}"),
    }
    let (r, _, _) = go(&["a.b"], &["protocol", "stdio"], cfg());
    match r {
        Route::Mcp(rest) => assert_eq!(rest, args(&["stdio"])),
        other => panic!("{other:?}"),
    }
}

#[test]
fn run_invalid_mode_words() {
    let cases = [
        ("serve", "serve", "", "xyz: mode words must be pairwise distinct (serve=\"serve\" mcp=\"serve\" help=\"help\")"),
        ("-serve", "", "", "xyz: invalid mode word \"-serve\" (no leading dash, no whitespace)"),
        ("sv c", "", "", "xyz: invalid mode word \"sv c\" (no leading dash, no whitespace)"),
    ];
    for (s, m, h, msg) in cases {
        let cfg = Config {
            modes: ModeWords {
                serve: s.into(),
                mcp: m.into(),
                help: h.into(),
            },
            ..Default::default()
        };
        let (r, _, _) = go(&["a.b"], &[], cfg);
        match r {
            Route::Exit(2, text) => assert_eq!(text, msg),
            other => panic!("{other:?}"),
        }
    }
}

#[test]
fn run_reserved_names() {
    for name in ["serve.x", "mcp.up", "help.me"] {
        let (r, _, _) = go(&[name], &["whatever"], Config::default());
        assert_eq!(code(&r), Some(2), "{name}");
    }
    let e = check_reserved(&args(&["a.b", "mcp.up"]), "serve", "mcp", "help").unwrap_err();
    assert_eq!(
        e.to_text(),
        "xyz: command \"mcp.up\": top-level name \"mcp\" is reserved for mode dispatch"
    );
    assert!(check_reserved(&args(&["served.x", "a"]), "serve", "mcp", "help").is_ok());
}

#[test]
fn run_version_flag_anywhere() {
    for argv in [vec!["-v"], vec!["--version"], vec!["echo", "hi", "-v"]] {
        let (r, _, _) = go(&["a.b"], &argv, Config::default());
        assert!(matches!(r, Route::Version), "{argv:?}");
    }
}

#[test]
fn run_disabled_capabilities() {
    let mut no_cli = Config::default();
    no_cli.capabilities.no_cli = true;
    let (r, _, _) = go(&["echo.hi"], &["echo", "hi", "--s", "x"], no_cli);
    assert_eq!(code(&r), Some(1));
    let mut no_cli = Config::default();
    no_cli.capabilities.no_cli = true;
    let (r, _, _) = go(&["echo.hi"], &["help"], no_cli);
    assert_eq!(code(&r), Some(0));

    let mut no_mcp = Config::default();
    no_mcp.capabilities.no_mcp = true;
    let (r, _, _) = go(&["echo.hi"], &["mcp", "stdio"], no_mcp);
    assert_eq!(code(&r), Some(1));

    let no_http = Config {
        capabilities: Capabilities {
            no_http: true,
            ..Default::default()
        },
        ..Default::default()
    };
    let (r, _, _) = go(&["echo.hi"], &["serve"], no_http);
    assert_eq!(code(&r), Some(1));
}

#[test]
fn route_strips_builtins_and_sets_level() {
    let (r, cfg, log) = go(
        &["echo.hi"],
        &["--xyz.log-level=debug", "echo", "hi", "--xyz.addr", ":1"],
        Config::default(),
    );
    match r {
        Route::Cli(rest) => assert_eq!(rest, args(&["echo", "hi"])),
        other => panic!("{other:?}"),
    }
    assert_eq!(cfg.addr, ":1");
    assert_eq!(log.level(), Level::Debug);
    let (r, _, _) = go(&["echo.hi"], &["--xyz.timeout=nope"], Config::default());
    match r {
        Route::Exit(2, m) => assert!(m.starts_with("xyz: invalid --xyz.timeout"), "{m}"),
        other => panic!("{other:?}"),
    }
    let (r, _, _) = go(&["echo.hi"], &["serve", "--addr", ":9"], Config::default());
    match r {
        Route::Serve(rest) => assert_eq!(rest, args(&["--addr", ":9"])),
        other => panic!("{other:?}"),
    }
}

#[test]
fn mode_words_default() {
    let (s, m, h) = resolve_modes(&Config::default()).unwrap();
    assert_eq!((s.as_str(), m.as_str(), h.as_str()), ("serve", "mcp", "help"));
    assert_eq!(top_segment_of("user.add.x"), "user");
    assert_eq!(top_segment_of("plain"), "plain");
}

#[test]
fn frontends_built_here() {
    assert!(cli_frontend_compiled());
    assert!(http_frontend_compiled());
    assert!(!mcp_frontend_compiled());
}

#[test]
fn version_is_fixed_once() {
    let mut c = VersionCell::new();
    set_version(&mut c, "v1.2.3");
    set_version(&mut c, "v9");
    assert_eq!(version(&mut c), "v1.2.3");
    let mut d = VersionCell::new();
    assert_eq!(version(&mut d), CRATE_VERSION);
    set_version(&mut d, "v2");
    assert_eq!(version(&mut d), CRATE_VERSION);
}

#[test]
fn ctx_cancel_is_shared() {
    let c = Ctx::new();
    assert!(!c.cancelled());
    let d = c.clone();
    d.cancel();
    assert!(c.cancelled());
    assert!(c.raw().load(std::sync::atomic::Ordering::Relaxed));
    assert!(!Ctx::default().cancelled());
}
