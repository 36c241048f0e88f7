//! The root dispatcher's decisions: which mode the process arguments ask
//! for (CLI subcommand, `serve`, `mcp`, the overview or the version), after
//! the mode words are checked and the built-in `--xyz.*` parameters are
//! taken out.  Running the chosen frontend is the caller's part.
use vstd::prelude::*;
use crate::builtins;
use crate::config::{Config, ConfigView};
use crate::errors;
use crate::lang::{self, LangState};
use crate::logx::{self, Level, LogState};
use crate::text;

verus! {

/// Whether the CLI frontend is built into this crate.
pub fn cli_frontend_compiled() -> (r: bool)
    ensures
        r,
{
    true
}

/// Whether the HTTP server frontend is built into this crate.
pub fn http_frontend_compiled() -> (r: bool)
    ensures
        r,
{
    true
}

/// Whether the MCP server frontend is built into this crate.
pub fn mcp_frontend_compiled() -> (r: bool)
    ensures
        !r,
{
    false
}

// ------------------------------------------------------------ mode words
/// A mode word is a plain word: no leading dash, no space or tab.
pub open spec fn word_ok(w: Seq<char>) -> bool {
    !text::is_prefix("-"@, w) && !w.contains(' ') && !w.contains('\t')
}

/// A configured word, or its default when empty.
pub open spec fn word_or(w: Seq<char>, d: Seq<char>) -> Seq<char> {
    if w.len() == 0 {
        d
    } else {
        w
    }
}

/// The mode words (serve, mcp, help), defaulted and checked: each a plain
/// word (the first bad one is named), pairwise distinct.
pub open spec fn modes_spec(c: ConfigView) -> Result<(Seq<char>, Seq<char>, Seq<char>), Seq<char>> {
    let s = word_or(c.serve_word, "serve"@);
    let m = word_or(c.mcp_word, "mcp"@);
    let h = word_or(c.help_word, "help"@);
    if !word_ok(s) {
        Err(bad_word_message(s))
    } else if !word_ok(m) {
        Err(bad_word_message(m))
    } else if !word_ok(h) {
        Err(bad_word_message(h))
    } else if s == m || s == h || m == h {
        Err("xyz: mode words must be pairwise distinct (serve="@ + text::quoted(s) + " mcp="@
            + text::quoted(m) + " help="@ + text::quoted(h) + ")"@)
    } else {
        Ok((s, m, h))
    }
}

/// The message of a mode word that is not a plain word.
pub open spec fn bad_word_message(w: Seq<char>) -> Seq<char> {
    "xyz: invalid mode word "@ + text::quoted(w) + " (no leading dash, no whitespace)"@
}

fn check_word(w: &str) -> (r: bool)
    ensures
        r == word_ok(w@),
{
    let cs = text::chars_of(w);
    let mut i: usize = 0;
    let mut ok = !text::str_starts_with(w, "-");
    while i < cs.len()
        invariant
            i <= cs.len(),
            cs@ == w@,
            ok == (!text::is_prefix("-"@, w@) && forall|k: int|
                0 <= k < i ==> cs@[k] != ' ' && cs@[k] != '\t'),
        decreases cs.len() - i,
    {
        if cs[i] == ' ' || cs[i] == '\t' {
            ok = false;
        }
        i += 1;
    }
    proof {
        if w@.contains(' ') {
            let k = choose|k: int| 0 <= k < w@.len() && w@[k] == ' ';
            assert(cs@[k] == ' ');
        }
        if w@.contains('\t') {
            let k = choose|k: int| 0 <= k < w@.len() && w@[k] == '\t';
            assert(cs@[k] == '\t');
        }
        if ok {
            assert(!w@.contains(' '));
            assert(!w@.contains('\t'));
        } else if !text::is_prefix("-"@, w@) {
            let k = choose|k: int| 0 <= k < i && !(cs@[k] != ' ' && cs@[k] != '\t');
            assert(w@[k] == ' ' || w@[k] == '\t');
        }
    }
    ok
}

fn word_or_default(w: &String, d: &str) -> (r: String)
    ensures
        r@ == word_or(w@, d@),
{
    if w.as_str().is_empty() {
        text::owned(d)
    } else {
        w.clone()
    }
}

fn bad_word(w: &str) -> (e: errors::Error)
    ensures
        e.kind_spec() == errors::Kind::Internal && e.class_spec() == errors::Kind::Internal,
        e.text_spec() == bad_word_message(w@),
{
    let mut m = text::owned("xyz: invalid mode word ");
    let q = text::quote(w);
    text::append(&mut m, q.as_str());
    text::append(&mut m, " (no leading dash, no whitespace)");
    proof {
        reveal_strlit("xyz: invalid mode word ");
    }
    errors::new(errors::Kind::Internal, m)
}

/// Defaults and checks the mode words.
pub fn resolve_modes(cfg: &Config) -> (r: Result<(String, String, String), errors::Error>)
    ensures
        match r {
            Ok((s, m, h)) => modes_spec(cfg@) == Ok::<
                (Seq<char>, Seq<char>, Seq<char>),
                Seq<char>,
            >((s@, m@, h@)),
            Err(e) => modes_spec(cfg@) is Err && e.kind_spec() == errors::Kind::Internal && e.class_spec() == errors::Kind::Internal
                && e.text_spec() == modes_spec(cfg@)->Err_0,
        },
{
    proof {
        reveal_strlit("serve");
        reveal_strlit("mcp");
        reveal_strlit("help");
    }
    let serve = word_or_default(&cfg.modes.serve, "serve");
    let mcp_word = word_or_default(&cfg.modes.mcp, "mcp");
    let help_word = word_or_default(&cfg.modes.help, "help");
    if !check_word(serve.as_str()) {
        return Err(bad_word(serve.as_str()));
    }
    if !check_word(mcp_word.as_str()) {
        return Err(bad_word(mcp_word.as_str()));
    }
    if !check_word(help_word.as_str()) {
        return Err(bad_word(help_word.as_str()));
    }
    if text::str_eq(serve.as_str(), mcp_word.as_str()) || text::str_eq(
        serve.as_str(),
        help_word.as_str(),
    ) || text::str_eq(mcp_word.as_str(), help_word.as_str()) {
        let mut m = text::owned("xyz: mode words must be pairwise distinct (serve=");
        let q = text::quote(serve.as_str());
        text::append(&mut m, q.as_str());
        text::append(&mut m, " mcp=");
        let q = text::quote(mcp_word.as_str());
        text::append(&mut m, q.as_str());
        text::append(&mut m, " help=");
        let q = text::quote(help_word.as_str());
        text::append(&mut m, q.as_str());
        text::append(&mut m, ")");
        proof {
            reveal_strlit("xyz: mode words must be pairwise distinct (serve=");
        }
        return Err(errors::new(errors::Kind::Internal, m));
    }
    Ok((serve, mcp_word, help_word))
}

// ------------------------------------------------------------ reserved names
/// The top-level segment of a dotted name (up to the first dot).
pub open spec fn top_segment(name: Seq<char>) -> Seq<char>
    decreases name.len(),
{
    if name.len() == 0 || name[0] == '.' {
        Seq::empty()
    } else {
        seq![name[0]] + top_segment(name.drop_first())
    }
}

/// The first registered name (in order) whose top-level segment is a mode
/// word, if any.
pub open spec fn reserved_hit(names: Seq<Seq<char>>, s: Seq<char>, m: Seq<char>, h: Seq<char>) -> Option<Seq<char>>
    decreases names.len(),
{
    if names.len() == 0 {
        None
    } else {
        let t = top_segment(names[0]);
        if t == s || t == m || t == h {
            Some(names[0])
        } else {
            reserved_hit(names.drop_first(), s, m, h)
        }
    }
}

/// The message of a name that takes a mode word.
pub open spec fn reserved_message(name: Seq<char>) -> Seq<char> {
    "xyz: command "@ + text::quoted(name) + ": top-level name "@ + text::quoted(
        top_segment(name),
    ) + " is reserved for mode dispatch"@
}

/// The top-level segment of a dotted name.
pub fn top_segment_of(name: &str) -> (r: String)
    ensures
        r@ == top_segment(name@),
{
    let cs = text::chars_of(name);
    let mut i: usize = 0;
    proof {
        assert(name@.skip(0) == name@);
        assert(cs@.take(0) + top_segment(name@) == top_segment(name@));
    }
    while i < cs.len() && cs[i] != '.'
        invariant
            i <= cs.len(),
            cs@ == name@,
            forall|k: int| 0 <= k < i ==> cs@[k] != '.',
            top_segment(name@) == cs@.take(i as int) + top_segment(name@.skip(i as int)),
        decreases cs.len() - i,
    {
        proof {
            assert(name@.skip(i as int)[0] == cs@[i as int]);
            assert(name@.skip(i as int).drop_first() == name@.skip(i + 1));
            assert(cs@.take(i + 1) == cs@.take(i as int) + seq![cs@[i as int]]);
        }
        i += 1;
    }
    proof {
        assert(top_segment(name@.skip(i as int)) == Seq::<char>::empty());
        assert(cs@.take(i as int) + Seq::<char>::empty() == cs@.take(i as int));
    }
    text::string_of(text::slice_of(cs.as_slice(), 0, i).as_slice())
}

/// Refuses registered names whose top-level segment is a mode word (those
/// words belong to the dispatcher).
pub fn check_reserved(names: &[String], serve: &str, mcp_word: &str, help_word: &str) -> (r: Result<
    (),
    errors::Error,
>)
    ensures
        match r {
            Ok(()) => reserved_hit(text::views(names@), serve@, mcp_word@, help_word@) is None,
            Err(e) => reserved_hit(text::views(names@), serve@, mcp_word@, help_word@) is Some
                && e.kind_spec() == errors::Kind::Internal && e.class_spec() == errors::Kind::Internal && e.text_spec() == reserved_message(
                reserved_hit(text::views(names@), serve@, mcp_word@, help_word@)->Some_0,
            ),
        },
{
    let ghost vn = text::views(names@);
    let mut i: usize = 0;
    assert(vn.skip(0) == vn);
    while i < names.len()
        invariant
            i <= names.len(),
            vn == text::views(names@),
            reserved_hit(vn, serve@, mcp_word@, help_word@) == reserved_hit(
                vn.skip(i as int),
                serve@,
                mcp_word@,
                help_word@,
            ),
        decreases names.len() - i,
    {
        let name = names[i].as_str();
        proof {
            assert(vn.skip(i as int)[0] == name@);
            assert(vn.skip(i as int).drop_first() == vn.skip(i + 1));
        }
        let top = top_segment_of(name);
        if text::str_eq(top.as_str(), serve) || text::str_eq(top.as_str(), mcp_word)
            || text::str_eq(top.as_str(), help_word) {
            let mut m = text::owned("xyz: command ");
            let q = text::quote(name);
            text::append(&mut m, q.as_str());
            text::append(&mut m, ": top-level name ");
            let q = text::quote(top.as_str());
            text::append(&mut m, q.as_str());
            text::append(&mut m, " is reserved for mode dispatch");
            proof {
                reveal_strlit("xyz: command ");
            }
            return Err(errors::new(errors::Kind::Internal, m));
        }
        i += 1;
    }
    Ok(())
}

// ------------------------------------------------------------ routing
/// What the dispatcher does with the process arguments.
#[derive(Debug)]
pub enum Route {
    /// Exit with this code after printing the text (if any) to stderr.
    Exit(i32, String),
    /// Print `<bin> version <version>` and exit 0.
    Version,
    /// Print the overview and exit 0.
    Overview,
    /// Run the HTTP frontend on these arguments.
    Serve(Vec<String>),
    /// Run the MCP frontend on these arguments.
    Mcp(Vec<String>),
    /// Run the CLI frontend on these arguments.
    Cli(Vec<String>),
}

/// The plain-value form of a route.
pub enum RouteView {
    Exit(int, Seq<char>),
    Version,
    Overview,
    Serve(Seq<Seq<char>>),
    Mcp(Seq<Seq<char>>),
    Cli(Seq<Seq<char>>),
}

impl View for Route {
    type V = RouteView;

    open spec fn view(&self) -> RouteView {
        match self {
            Route::Exit(c, m) => RouteView::Exit(*c as int, m@),
            Route::Version => RouteView::Version,
            Route::Overview => RouteView::Overview,
            Route::Serve(a) => RouteView::Serve(text::views(a@)),
            Route::Mcp(a) => RouteView::Mcp(text::views(a@)),
            Route::Cli(a) => RouteView::Cli(text::views(a@)),
        }
    }
}

/// The warning of a disabled mode (empty when warnings are not shown).
pub open spec fn warn_text(log: LogState, msg: Seq<char>) -> Seq<char> {
    match logx::line_spec(log, Level::Warn, msg) {
        Some(x) => x,
        None => Seq::empty(),
    }
}

/// The route once the mode words are known and the built-in parameters
/// are out: no arguments, the help word, `--help` or `-h` give the
/// overview; the serve and mcp words give their frontends unless switched
/// off; anything else is a CLI command unless the CLI is switched off.
pub open spec fn mode_route(
    args: Seq<Seq<char>>,
    s: Seq<char>,
    m: Seq<char>,
    h: Seq<char>,
    c: ConfigView,
    log: LogState,
    lang_st: LangState,
) -> RouteView {
    if args.len() == 0 || args[0] == h || args[0] == "--help"@ || args[0] == "-h"@ {
        RouteView::Overview
    } else if args[0] == s {
        if c.capabilities.no_http {
            RouteView::Exit(
                1,
                warn_text(log, lang::fill(lang::t_spec(lang_st, "warn.mode_disabled"@), seq![s, "HTTP"@])),
            )
        } else {
            RouteView::Serve(args.drop_first())
        }
    } else if args[0] == m {
        if c.capabilities.no_mcp {
            RouteView::Exit(
                1,
                warn_text(log, lang::fill(lang::t_spec(lang_st, "warn.mode_disabled"@), seq![m, "MCP"@])),
            )
        } else {
            RouteView::Mcp(args.drop_first())
        }
    } else if c.capabilities.no_cli {
        RouteView::Exit(
            1,
            warn_text(log, lang::fill(lang::t_spec(lang_st, "warn.no_cli"@), seq![m, s])),
        )
    } else {
        RouteView::Cli(args)
    }
}

fn warn_line(log: &LogState, msg: &str) -> (r: String)
    ensures
        r@ == warn_text(*log, msg@),
{
    match logx::warnf(log, msg) {
        Some(x) => x,
        None => String::new(),
    }
}

/// Whether `-v` or `--version` is among the arguments.
pub open spec fn asks_version(args: Seq<Seq<char>>) -> bool {
    args.contains("-v"@) || args.contains("--version"@)
}

fn has_version_flag(args: &Vec<String>) -> (r: bool)
    ensures
        r == asks_version(text::views(args@)),
{
    let found_v = builtins::contains_str(args, "-v");
    let found_long = builtins::contains_str(args, "--version");
    found_v || found_long
}

/// Decides what the process arguments ask for, over the sorted registered
/// `names`: bad mode words and reserved names exit 2; an empty registry
/// exits 0 silently; `-v`/`--version` anywhere gives the version; the
/// `--xyz.*` parameters are taken into `cfg` (a bad one exits 2), a
/// configured log level is applied to `log`; then [`mode_route`] decides.
#[verifier::rlimit(30)]
pub fn route(
    names: &[String],
    args: Vec<String>,
    cfg: &mut Config,
    log: &mut LogState,
    lang_st: &LangState,
) -> (r: Route)
    ensures
        ({
            let vn = text::views(names@);
            let va = text::views(args@);
            match modes_spec(old(cfg)@) {
                Err(msg) => r@ == RouteView::Exit(2, msg) && final(cfg)@ == old(cfg)@
                    && *final(log) == *old(log),
                Ok((s, m, h)) => match reserved_hit(vn, s, m, h) {
                    Some(n) => r@ == RouteView::Exit(2, reserved_message(n)) && final(cfg)@ == old(
                        cfg,
                    )@ && *final(log) == *old(log),
                    None => if vn.len() == 0 {
                        r@ == RouteView::Exit(0, Seq::empty()) && final(cfg)@ == old(cfg)@
                            && *final(log) == *old(log)
                    } else if asks_version(va) {
                        r@ == RouteView::Version && final(cfg)@ == old(cfg)@ && *final(log) == *old(
                            log,
                        )
                    } else {
                        let (err, out, c) = builtins::strip_spec(va, 0, old(cfg)@, Seq::empty());
                        &&& final(cfg)@ == c
                        &&& match err {
                            Some(e) => r@ == RouteView::Exit(2, "xyz: "@ + e) && *final(log) == *old(
                                log,
                            ),
                            None => {
                                &&& final(log).level_spec() == (if c.log_level == Level::Unset {
                                    old(log).level_spec()
                                } else {
                                    c.log_level
                                })
                                &&& r@ == mode_route(out, s, m, h, c, *final(log), *lang_st)
                            },
                        }
                    },
                },
            }
        }),
{
    let (serve, mcp_word, help_word) = match resolve_modes(cfg) {
        Ok(t) => t,
        Err(e) => {
            return Route::Exit(2, e.to_text());
        },
    };
    match check_reserved(names, serve.as_str(), mcp_word.as_str(), help_word.as_str()) {
        Ok(()) => {},
        Err(e) => {
            return Route::Exit(2, e.to_text());
        },
    }
    if names.len() == 0 {
        return Route::Exit(0, String::new());
    }
    if has_version_flag(&args) {
        return Route::Version;
    }
    let rest = match builtins::strip_xyz_flags(args, cfg) {
        Ok(a) => a,
        Err(e) => {
            let mut m = text::owned("xyz: ");
            let t = e.to_text();
            text::append(&mut m, t.as_str());
            proof {
                reveal_strlit("xyz: ");
            }
            return Route::Exit(2, m);
        },
    };
    logx::set_level(log, cfg.log_level);
    mode_decision(rest, serve.as_str(), mcp_word.as_str(), help_word.as_str(), cfg, log, lang_st)
}

fn mode_decision(
    args: Vec<String>,
    serve: &str,
    mcp_word: &str,
    help_word: &str,
    cfg: &Config,
    log: &LogState,
    lang_st: &LangState,
) -> (r: Route)
    ensures
        r@ == mode_route(text::views(args@), serve@, mcp_word@, help_word@, cfg@, *log, *lang_st),
{
    let ghost va = text::views(args@);
    proof {
        reveal_strlit("HTTP");
        reveal_strlit("MCP");
    }
    if args.len() == 0 {
        return Route::Overview;
    }
    assert(va[0] == args@[0]@);
    let first = args[0].as_str();
    if text::str_eq(first, help_word) || text::str_eq(first, "--help") || text::str_eq(first, "-h") {
        return Route::Overview;
    }
    if text::str_eq(first, serve) {
        if cfg.capabilities.no_http {
            let msg = lang::tf(lang_st, "warn.mode_disabled", &[serve, "HTTP"]);
            proof {
                assert(seq![serve, "HTTP"].map_values(|p: &str| p@) == seq![serve@, "HTTP"@]);
            }
            return Route::Exit(1, warn_line(log, msg.as_str()));
        }
        let rest = tail(&args);
        return Route::Serve(rest);
    }
    if text::str_eq(first, mcp_word) {
        if cfg.capabilities.no_mcp {
            let msg = lang::tf(lang_st, "warn.mode_disabled", &[mcp_word, "MCP"]);
            proof {
                assert(seq![mcp_word, "MCP"].map_values(|p: &str| p@) == seq![mcp_word@, "MCP"@]);
            }
            return Route::Exit(1, warn_line(log, msg.as_str()));
        }
        let rest = tail(&args);
        return Route::Mcp(rest);
    }
    if cfg.capabilities.no_cli {
        let msg = lang::tf(lang_st, "warn.no_cli", &[mcp_word, serve]);
        proof {
            assert(seq![mcp_word, serve].map_values(|p: &str| p@) == seq![mcp_word@, serve@]);
        }
        return Route::Exit(1, warn_line(log, msg.as_str()));
    }
    Route::Cli(args)
}

/// All arguments but the first.
fn tail(args: &Vec<String>) -> (r: Vec<String>)
    requires
        args.len() > 0,
    ensures
        text::views(r@) == text::views(args@).drop_first(),
{
    let mut r: Vec<String> = Vec::new();
    let mut i: usize = 1;
    while i < args.len()
        invariant
            1 <= i <= args.len(),
            text::views(r@) == text::views(args@).subrange(1, i as int),
        decreases args.len() - i,
    {
        let ghost before = r@;
        r.push(args[i].clone());
        assert(text::views(r@) == text::views(before).push(args@[i as int]@));
        assert(text::views(args@).subrange(1, i + 1) == text::views(args@).subrange(1, i as int).push(
            args@[i as int]@,
        ));
        i += 1;
    }
    assert(text::views(args@).subrange(1, args.len() as int) == text::views(args@).drop_first());
    r
}

} // verus!
