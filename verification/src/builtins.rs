//! Built-in parameters: the global `--xyz.*` flags (anywhere before `--`)
//! and the bare flags of the serve mode, folded into a [`Config`].
//! Precedence: mode-local flag > global flag or code `Config` > defaults.
use vstd::prelude::*;
use crate::config::{Config, ConfigView};
use crate::errors;
use crate::lang;
use crate::logx;
use crate::scalar;
use crate::text;

verus! {

// ------------------------------------------------------------ token lists
/// `acc` extended by the items that it does not hold yet, in order.
pub open spec fn add_unique(acc: Seq<Seq<char>>, items: Seq<Seq<char>>) -> Seq<Seq<char>>
    decreases items.len(),
{
    if items.len() == 0 {
        acc
    } else {
        let a = add_unique(acc, items.drop_last());
        if a.contains(items.last()) {
            a
        } else {
            a.push(items.last())
        }
    }
}

/// The existing tokens without repeats, then the new comma separated
/// tokens (trimmed, non-empty) that are not there yet.
pub open spec fn merge_spec(existing: Seq<Seq<char>>, flag: Seq<char>) -> Seq<Seq<char>> {
    add_unique(add_unique(Seq::empty(), existing), text::comma_list(flag))
}

/// Whether a list holds `s`.
pub fn contains_str(v: &Vec<String>, s: &str) -> (r: bool)
    ensures
        r == text::views(v@).contains(s@),
{
    let mut i: usize = 0;
    while i < v.len()
        invariant
            i <= v.len(),
            forall|j: int| 0 <= j < i ==> v@[j]@ != s@,
        decreases v.len() - i,
    {
        if text::str_eq(v[i].as_str(), s) {
            assert(text::views(v@)[i as int] == s@);
            return true;
        }
        i += 1;
    }
    assert(!text::views(v@).contains(s@)) by {
        if text::views(v@).contains(s@) {
            let k = choose|k: int| 0 <= k < text::views(v@).len() && text::views(v@)[k] == s@;
            assert(v@[k]@ == s@);
        }
    }
    false
}

/// Appends to `out` each item of `items` that it does not hold yet.
pub fn add_unique_into(out: &mut Vec<String>, items: &Vec<String>)
    ensures
        text::views(final(out)@) == add_unique(text::views(old(out)@), text::views(items@)),
{
    let ghost start = text::views(out@);
    let mut i: usize = 0;
    while i < items.len()
        invariant
            i <= items.len(),
            text::views(out@) == add_unique(start, text::views(items@).take(i as int)),
        decreases items.len() - i,
    {
        let ghost before = out@;
        assert(text::views(items@).take(i + 1).drop_last() == text::views(items@).take(i as int));
        assert(text::views(items@).take(i + 1).last() == items@[i as int]@);
        if !contains_str(out, items[i].as_str()) {
            out.push(items[i].clone());
            assert(text::views(out@) == text::views(before).push(items@[i as int]@));
        }
        i += 1;
    }
    assert(text::views(items@).take(items.len() as int) == text::views(items@));
}

/// Merges a comma separated token list into existing tokens, dropping
/// repeats (code presets first, command-line additions after).
pub fn merge_tokens(existing: Vec<String>, flag: &str) -> (r: Vec<String>)
    ensures
        text::views(r@) == merge_spec(text::views(existing@), flag@),
{
    let mut out: Vec<String> = Vec::new();
    assert(text::views(out@) == Seq::<Seq<char>>::empty());
    add_unique_into(&mut out, &existing);
    let pieces = text::comma_list_of(flag);
    add_unique_into(&mut out, &pieces);
    out
}

/// Splits a comma separated list (`--versions` and the like): trimmed,
/// empty items dropped.
pub fn split_versions(s: &str) -> (r: Vec<String>)
    ensures
        text::views(r@) == text::comma_list(s@),
{
    text::comma_list_of(s)
}

pub proof fn lemma_add_unique_no_dups(acc: Seq<Seq<char>>, items: Seq<Seq<char>>)
    requires
        acc.no_duplicates(),
    ensures
        add_unique(acc, items).no_duplicates(),
        forall|x: Seq<char>| acc.contains(x) ==> #[trigger] add_unique(acc, items).contains(x),
        forall|x: Seq<char>| #[trigger] add_unique(acc, items).contains(x) ==> acc.contains(x)
            || items.contains(x),
        forall|x: Seq<char>| items.contains(x) ==> #[trigger] add_unique(acc, items).contains(x),
        add_unique(acc, items).take(acc.len() as int) == acc,
        add_unique(acc, items).len() >= acc.len(),
    decreases items.len(),
{
    if items.len() > 0 {
        lemma_add_unique_no_dups(acc, items.drop_last());
        let a = add_unique(acc, items.drop_last());
        assert forall|x: Seq<char>| items.contains(x) implies #[trigger] add_unique(
            acc,
            items,
        ).contains(x) by {
            let k = choose|k: int| 0 <= k < items.len() && items[k] == x;
            if k < items.len() - 1 {
                assert(items.drop_last()[k] == x);
                assert(items.drop_last().contains(x));
                assert(a.contains(x));
                if !a.contains(items.last()) {
                    assert(a.push(items.last())[a.index_of(x)] == x);
                }
            } else {
                if !a.contains(items.last()) {
                    assert(a.push(items.last())[a.len() as int] == x);
                }
            }
        }
        assert forall|x: Seq<char>| acc.contains(x) implies #[trigger] add_unique(acc, items).contains(x) by {
            assert(a.contains(x));
            if !a.contains(items.last()) {
                assert(a.push(items.last())[a.index_of(x)] == x);
            }
        }
        assert forall|x: Seq<char>| #[trigger] add_unique(acc, items).contains(x) implies acc.contains(x)
            || items.contains(x) by {
            if a.contains(x) {
                if items.drop_last().contains(x) {
                    let k = choose|k: int| 0 <= k < items.drop_last().len() && items.drop_last()[k] == x;
                    assert(items[k] == x);
                }
            }
        }
        if !a.contains(items.last()) {
            assert(a.push(items.last()).take(acc.len() as int) == a.take(acc.len() as int));
        }
    }
}

/// Merged token lists never hold a token twice, keep every earlier token
/// in front in its original order of first appearance, and hold every new
/// token; merging the same flag again changes nothing.
pub proof fn lemma_merge_tokens(existing: Seq<Seq<char>>, flag: Seq<char>)
    ensures
        merge_spec(existing, flag).no_duplicates(),
        forall|x: Seq<char>| existing.contains(x) ==> #[trigger] merge_spec(existing, flag).contains(x),
        forall|x: Seq<char>| text::comma_list(flag).contains(x) ==> #[trigger] merge_spec(
            existing,
            flag,
        ).contains(x),
        forall|x: Seq<char>| #[trigger] merge_spec(existing, flag).contains(x) ==> existing.contains(x)
            || text::comma_list(flag).contains(x),
        merge_spec(existing, flag).take(add_unique(Seq::empty(), existing).len() as int)
            == add_unique(Seq::empty(), existing),
{
    lemma_add_unique_no_dups(Seq::empty(), existing);
    lemma_add_unique_no_dups(add_unique(Seq::empty(), existing), text::comma_list(flag));
}

// ------------------------------------------------------------- --xyz.* flags
/// The built-in parameters.
#[derive(Debug, Clone, Copy, PartialEq, Eq, Structural)]
pub enum Builtin {
    Addr,
    Bearer,
    LogLevel,
    Timeout,
    TlsCert,
    TlsKey,
    Cors,
    Lang,
}

/// The built-in parameter that the argument names exactly.
pub open spec fn xyz_exact(a: Seq<char>) -> Option<Builtin> {
    if a == "--xyz.addr"@ {
        Some(Builtin::Addr)
    } else if a == "--xyz.bearer"@ {
        Some(Builtin::Bearer)
    } else if a == "--xyz.log-level"@ {
        Some(Builtin::LogLevel)
    } else if a == "--xyz.timeout"@ {
        Some(Builtin::Timeout)
    } else if a == "--xyz.tls-cert"@ {
        Some(Builtin::TlsCert)
    } else if a == "--xyz.tls-key"@ {
        Some(Builtin::TlsKey)
    } else if a == "--xyz.cors"@ {
        Some(Builtin::Cors)
    } else if a == "--xyz.lang"@ {
        Some(Builtin::Lang)
    } else {
        None
    }
}

/// The built-in parameter of a `--xyz.name=value` argument, with its value.
pub open spec fn xyz_assign(a: Seq<char>) -> Option<(Builtin, Seq<char>)> {
    if text::is_prefix("--xyz.addr="@, a) {
        Some((Builtin::Addr, a.skip(11)))
    } else if text::is_prefix("--xyz.bearer="@, a) {
        Some((Builtin::Bearer, a.skip(13)))
    } else if text::is_prefix("--xyz.log-level="@, a) {
        Some((Builtin::LogLevel, a.skip(16)))
    } else if text::is_prefix("--xyz.timeout="@, a) {
        Some((Builtin::Timeout, a.skip(14)))
    } else if text::is_prefix("--xyz.tls-cert="@, a) {
        Some((Builtin::TlsCert, a.skip(15)))
    } else if text::is_prefix("--xyz.tls-key="@, a) {
        Some((Builtin::TlsKey, a.skip(14)))
    } else if text::is_prefix("--xyz.cors="@, a) {
        Some((Builtin::Cors, a.skip(11)))
    } else if text::is_prefix("--xyz.lang="@, a) {
        Some((Builtin::Lang, a.skip(11)))
    } else {
        None
    }
}

/// The effect of one built-in parameter with value `v` on a configuration;
/// `separate` tells the `--xyz.name value` form from `--xyz.name=value`
/// (they word a bad timeout differently).
pub open spec fn apply_builtin(b: Builtin, v: Seq<char>, c: ConfigView, separate: bool) -> Result<
    ConfigView,
    Seq<char>,
> {
    match b {
        Builtin::Addr => Ok(ConfigView { addr: v, ..c }),
        Builtin::Bearer => Ok(ConfigView { bearer_tokens: merge_spec(c.bearer_tokens, v), ..c }),
        Builtin::LogLevel => match logx::level_of_word(text::lower(text::trim(v))) {
            Some(l) => Ok(ConfigView { log_level: l, ..c }),
            None => Err(logx::bad_level_message(v)),
        },
        Builtin::Timeout => match scalar::duration_spec(v) {
            Ok(n) => Ok(ConfigView { timeout: scalar::nanos_duration(n as u64), ..c }),
            Err(e) => if separate {
                Err("invalid --xyz.timeout "@ + text::quoted(v) + ": "@ + scalar::duration_message(
                    v,
                    e,
                ))
            } else {
                Err("invalid --xyz.timeout: "@ + scalar::duration_message(v, e))
            },
        },
        Builtin::TlsCert => Ok(ConfigView { cert_file: v, ..c }),
        Builtin::TlsKey => Ok(ConfigView { key_file: v, ..c }),
        Builtin::Cors => Ok(ConfigView { cors_origins: merge_spec(c.cors_origins, v), ..c }),
        Builtin::Lang => match lang::lang_of_name(v) {
            Some(_) => Ok(ConfigView { lang: v, ..c }),
            None => Err("invalid --xyz.lang "@ + text::quoted(v) + " (want en|zh-CN)"@),
        },
    }
}

/// Folding the arguments from position `i`: built-in parameters update the
/// configuration and disappear, everything else is kept in order, and `--`
/// keeps itself and all that follows.  The result is the first error (if
/// any), the kept arguments and the configuration reached.
pub open spec fn strip_spec(
    args: Seq<Seq<char>>,
    i: nat,
    c: ConfigView,
    out: Seq<Seq<char>>,
) -> (Option<Seq<char>>, Seq<Seq<char>>, ConfigView)
    decreases args.len() - i,
{
    if i >= args.len() {
        (None, out, c)
    } else {
        let a = args[i as int];
        if a == "--"@ {
            (None, out + args.skip(i as int), c)
        } else {
            match xyz_exact(a) {
                Some(b) => if i + 1 >= args.len() {
                    (Some("flag "@ + a + " needs an argument"@), out, c)
                } else {
                    match apply_builtin(b, args[i + 1 as int], c, true) {
                        Ok(c2) => strip_spec(args, i + 2, c2, out),
                        Err(m) => (Some(m), out, c),
                    }
                },
                None => match xyz_assign(a) {
                    Some((b, v)) => match apply_builtin(b, v, c, false) {
                        Ok(c2) => strip_spec(args, i + 1, c2, out),
                        Err(m) => (Some(m), out, c),
                    },
                    None => strip_spec(args, i + 1, c, out.push(a)),
                },
            }
        }
    }
}

fn exact_builtin(a: &str) -> (r: Option<Builtin>)
    ensures
        r == xyz_exact(a@),
{
    if text::str_eq(a, "--xyz.addr") {
        Some(Builtin::Addr)
    } else if text::str_eq(a, "--xyz.bearer") {
        Some(Builtin::Bearer)
    } else if text::str_eq(a, "--xyz.log-level") {
        Some(Builtin::LogLevel)
    } else if text::str_eq(a, "--xyz.timeout") {
        Some(Builtin::Timeout)
    } else if text::str_eq(a, "--xyz.tls-cert") {
        Some(Builtin::TlsCert)
    } else if text::str_eq(a, "--xyz.tls-key") {
        Some(Builtin::TlsKey)
    } else if text::str_eq(a, "--xyz.cors") {
        Some(Builtin::Cors)
    } else if text::str_eq(a, "--xyz.lang") {
        Some(Builtin::Lang)
    } else {
        None
    }
}

fn assign_builtin(a: &str) -> (r: Option<(Builtin, String)>)
    ensures
        match r {
            Some((b, v)) => xyz_assign(a@) == Some((b, v@)),
            None => xyz_assign(a@) is None,
        },
{
    proof {
        reveal_strlit("--xyz.addr=");
        reveal_strlit("--xyz.bearer=");
        reveal_strlit("--xyz.log-level=");
        reveal_strlit("--xyz.timeout=");
        reveal_strlit("--xyz.tls-cert=");
        reveal_strlit("--xyz.tls-key=");
        reveal_strlit("--xyz.cors=");
        reveal_strlit("--xyz.lang=");
    }
    if let Some(v) = text::strip_prefix(a, "--xyz.addr=") {
        Some((Builtin::Addr, v))
    } else if let Some(v) = text::strip_prefix(a, "--xyz.bearer=") {
        Some((Builtin::Bearer, v))
    } else if let Some(v) = text::strip_prefix(a, "--xyz.log-level=") {
        Some((Builtin::LogLevel, v))
    } else if let Some(v) = text::strip_prefix(a, "--xyz.timeout=") {
        Some((Builtin::Timeout, v))
    } else if let Some(v) = text::strip_prefix(a, "--xyz.tls-cert=") {
        Some((Builtin::TlsCert, v))
    } else if let Some(v) = text::strip_prefix(a, "--xyz.tls-key=") {
        Some((Builtin::TlsKey, v))
    } else if let Some(v) = text::strip_prefix(a, "--xyz.cors=") {
        Some((Builtin::Cors, v))
    } else if let Some(v) = text::strip_prefix(a, "--xyz.lang=") {
        Some((Builtin::Lang, v))
    } else {
        None
    }
}

/// Applies one built-in parameter to `cfg`; on error `cfg` is unchanged.
fn apply_to(b: Builtin, v: &str, cfg: &mut Config, separate: bool) -> (r: Result<(), errors::Error>)
    ensures
        final(cfg).translations@ == old(cfg).translations@,
        match apply_builtin(b, v@, old(cfg)@, separate) {
            Ok(c2) => r is Ok && final(cfg)@ == c2,
            Err(m) => r matches Err(e) && e.text_spec() == m && e.kind_spec() == errors::Kind::Internal && e.class_spec() == errors::Kind::Internal && e.kind_spec() == errors::Kind::Internal && final(cfg)@ == old(cfg)@,
        },
{
    match b {
        Builtin::Addr => {
            cfg.addr = text::owned(v);
            Ok(())
        },
        Builtin::Bearer => {
            let cur = text::clone_strings(&cfg.bearer_tokens);
            cfg.bearer_tokens = merge_tokens(cur, v);
            Ok(())
        },
        Builtin::LogLevel => {
            match logx::parse_level(v) {
                Ok(l) => {
                    cfg.log_level = l;
                    Ok(())
                },
                Err(e) => Err(e),
            }
        },
        Builtin::Timeout => {
            match scalar::parse_duration(v) {
                Ok(d) => {
                    cfg.timeout = d;
                    Ok(())
                },
                Err(e) => {
                    let mut m = if separate {
                        let mut m = text::owned("invalid --xyz.timeout ");
                        let q = text::quote(v);
                        text::append(&mut m, q.as_str());
                        text::append(&mut m, ": ");
                        m
                    } else {
                        text::owned("invalid --xyz.timeout: ")
                    };
                    text::append(&mut m, e.as_str());
                    proof {
                        reveal_strlit("invalid --xyz.timeout ");
                        reveal_strlit("invalid --xyz.timeout: ");
                    }
                    Err(errors::Error::new(errors::Kind::Internal, m))
                },
            }
        },
        Builtin::TlsCert => {
            cfg.cert_file = text::owned(v);
            Ok(())
        },
        Builtin::TlsKey => {
            cfg.key_file = text::owned(v);
            Ok(())
        },
        Builtin::Cors => {
            let cur = text::clone_strings(&cfg.cors_origins);
            cfg.cors_origins = merge_tokens(cur, v);
            Ok(())
        },
        Builtin::Lang => {
            if lang::XyzLang::parse(v).is_none() {
                let mut m = text::owned("invalid --xyz.lang ");
                let q = text::quote(v);
                text::append(&mut m, q.as_str());
                text::append(&mut m, " (want en|zh-CN)");
                proof {
                    reveal_strlit("invalid --xyz.lang ");
                }
                return Err(errors::Error::new(errors::Kind::Internal, m));
            }
            cfg.lang = text::owned(v);
            Ok(())
        },
    }
}

/// Extracts the `--xyz.*` parameters (both `--xyz.name value` and
/// `--xyz.name=value`), removes them from the arguments and writes them
/// into `cfg`; command-line values override the code's `Config`.  Nothing
/// after a `--` terminator is touched.  The other arguments come back in
/// order.
pub fn strip_xyz_flags(args: Vec<String>, cfg: &mut Config) -> (r: Result<Vec<String>, errors::Error>)
    ensures
        final(cfg).translations@ == old(cfg).translations@,
        ({
            let (err, out, c) = strip_spec(text::views(args@), 0, old(cfg)@, Seq::empty());
            &&& final(cfg)@ == c
            &&& match r {
                Ok(v) => err is None && text::views(v@) == out,
                Err(e) => err == Some(e.text_spec()) && e.kind_spec() == errors::Kind::Internal && e.class_spec() == errors::Kind::Internal
                    && e.kind_spec() == errors::Kind::Internal,
            }
        }),
{
    let ghost va = text::views(args@);
    let ghost c0 = cfg@;
    let mut out: Vec<String> = Vec::new();
    let mut i: usize = 0;
    assert(text::views(out@) == Seq::<Seq<char>>::empty());
    while i < args.len()
        invariant
            i <= args.len(),
            va == text::views(args@),
            cfg.translations@ == old(cfg).translations@,
            c0 == old(cfg)@,
            strip_spec(va, 0, c0, Seq::empty()) == strip_spec(va, i as nat, cfg@, text::views(out@)),
        decreases args.len() - i,
    {
        let a = args[i].as_str();
        assert(va[i as int] == a@);
        let ghost cur = cfg@;
        let ghost vout = text::views(out@);
        if text::str_eq(a, "--") {
            let ghost before = out@;
            let mut k = i;
            assert(va.subrange(i as int, i as int) == Seq::<Seq<char>>::empty());
            assert(text::views(out@) == text::views(before) + va.subrange(i as int, k as int));
            while k < args.len()
                invariant
                    i <= k <= args.len(),
                    va == text::views(args@),
                    text::views(out@) == text::views(before) + va.subrange(i as int, k as int),
                decreases args.len() - k,
            {
                let ghost prev = out@;
                out.push(args[k].clone());
                assert(text::views(out@) == text::views(prev).push(args@[k as int]@));
                assert(va.subrange(i as int, k + 1) == va.subrange(i as int, k as int).push(
                    va[k as int],
                ));
                k += 1;
            }
            assert(va.subrange(i as int, args.len() as int) == va.skip(i as int));
            assert(strip_spec(va, i as nat, cur, vout) == (None::<Seq<char>>, vout + va.skip(i as int), cur));
            return Ok(out);
        }
        match exact_builtin(a) {
            Some(b) => {
                if i + 1 >= args.len() {
                    let mut m = text::owned("flag ");
                    text::append(&mut m, a);
                    text::append(&mut m, " needs an argument");
                    proof {
                        reveal_strlit("flag ");
                    }
                    assert(strip_spec(va, i as nat, cur, vout) == (Some("flag "@ + a@ + " needs an argument"@), vout, cur));
                    return Err(errors::Error::new(errors::Kind::Internal, m));
                }
                assert(va[i + 1] == args@[i + 1]@);
                match apply_to(b, args[i + 1].as_str(), cfg, true) {
                    Ok(()) => {},
                    Err(e) => {
                        return Err(e);
                    },
                }
                i += 2;
            },
            None => {
                match assign_builtin(a) {
                    Some((b, v)) => {
                        match apply_to(b, v.as_str(), cfg, false) {
                            Ok(()) => {},
                            Err(e) => {
                                return Err(e);
                            },
                        }
                    },
                    None => {
                        let ghost prev = out@;
                        out.push(args[i].clone());
                        assert(text::views(out@) == text::views(prev).push(a@));
                    },
                }
                i += 1;
            },
        }
    }
    Ok(out)
}

// ------------------------------------------------------------- serve flags
/// The serve-mode flag that an argument names exactly (the mode word is
/// the namespace, so the names are bare).
pub open spec fn serve_exact(a: Seq<char>) -> Option<Builtin> {
    if a == "--addr"@ {
        Some(Builtin::Addr)
    } else if a == "--bearer"@ {
        Some(Builtin::Bearer)
    } else if a == "--timeout"@ {
        Some(Builtin::Timeout)
    } else if a == "--tls-cert"@ {
        Some(Builtin::TlsCert)
    } else if a == "--tls-key"@ {
        Some(Builtin::TlsKey)
    } else if a == "--cors"@ {
        Some(Builtin::Cors)
    } else {
        None
    }
}

/// The serve-mode flag of a `--name=value` argument, with its value.
pub open spec fn serve_assign(a: Seq<char>) -> Option<(Builtin, Seq<char>)> {
    if text::is_prefix("--addr="@, a) {
        Some((Builtin::Addr, a.skip(7)))
    } else if text::is_prefix("--bearer="@, a) {
        Some((Builtin::Bearer, a.skip(9)))
    } else if text::is_prefix("--timeout="@, a) {
        Some((Builtin::Timeout, a.skip(10)))
    } else if text::is_prefix("--tls-cert="@, a) {
        Some((Builtin::TlsCert, a.skip(11)))
    } else if text::is_prefix("--tls-key="@, a) {
        Some((Builtin::TlsKey, a.skip(10)))
    } else if text::is_prefix("--cors="@, a) {
        Some((Builtin::Cors, a.skip(7)))
    } else {
        None
    }
}

/// The effect of a serve flag: like the global parameter, except that a
/// malformed timeout is ignored.
pub open spec fn apply_serve(b: Builtin, v: Seq<char>, c: ConfigView) -> ConfigView {
    match b {
        Builtin::Timeout => match scalar::duration_spec(v) {
            Ok(n) => ConfigView { timeout: scalar::nanos_duration(n as u64), ..c },
            Err(_) => c,
        },
        _ => match apply_builtin(b, v, c, true) {
            Ok(c2) => c2,
            Err(_) => c,
        },
    }
}

/// Folding the serve arguments from position `i`; a flag that lacks its
/// value ends the scan, unknown arguments are skipped.
pub open spec fn serve_spec(args: Seq<Seq<char>>, i: nat, c: ConfigView) -> ConfigView
    decreases args.len() - i,
{
    if i >= args.len() {
        c
    } else {
        let a = args[i as int];
        match serve_exact(a) {
            Some(b) => if i + 1 >= args.len() {
                c
            } else {
                serve_spec(args, i + 2, apply_serve(b, args[i + 1 as int], c))
            },
            None => match serve_assign(a) {
                Some((b, v)) => serve_spec(args, i + 1, apply_serve(b, v, c)),
                None => serve_spec(args, i + 1, c),
            },
        }
    }
}

fn serve_exact_of(a: &str) -> (r: Option<Builtin>)
    ensures
        r == serve_exact(a@),
{
    if text::str_eq(a, "--addr") {
        Some(Builtin::Addr)
    } else if text::str_eq(a, "--bearer") {
        Some(Builtin::Bearer)
    } else if text::str_eq(a, "--timeout") {
        Some(Builtin::Timeout)
    } else if text::str_eq(a, "--tls-cert") {
        Some(Builtin::TlsCert)
    } else if text::str_eq(a, "--tls-key") {
        Some(Builtin::TlsKey)
    } else if text::str_eq(a, "--cors") {
        Some(Builtin::Cors)
    } else {
        None
    }
}

fn serve_assign_of(a: &str) -> (r: Option<(Builtin, String)>)
    ensures
        match r {
            Some((b, v)) => serve_assign(a@) == Some((b, v@)),
            None => serve_assign(a@) is None,
        },
{
    proof {
        reveal_strlit("--addr=");
        reveal_strlit("--bearer=");
        reveal_strlit("--timeout=");
        reveal_strlit("--tls-cert=");
        reveal_strlit("--tls-key=");
        reveal_strlit("--cors=");
    }
    if let Some(v) = text::strip_prefix(a, "--addr=") {
        Some((Builtin::Addr, v))
    } else if let Some(v) = text::strip_prefix(a, "--bearer=") {
        Some((Builtin::Bearer, v))
    } else if let Some(v) = text::strip_prefix(a, "--timeout=") {
        Some((Builtin::Timeout, v))
    } else if let Some(v) = text::strip_prefix(a, "--tls-cert=") {
        Some((Builtin::TlsCert, v))
    } else if let Some(v) = text::strip_prefix(a, "--tls-key=") {
        Some((Builtin::TlsKey, v))
    } else if let Some(v) = text::strip_prefix(a, "--cors=") {
        Some((Builtin::Cors, v))
    } else {
        None
    }
}

fn apply_serve_to(b: Builtin, v: &str, cfg: &mut Config)
    ensures
        final(cfg).translations@ == old(cfg).translations@,
        final(cfg)@ == apply_serve(b, v@, old(cfg)@),
{
    match b {
        Builtin::Timeout => {
            match scalar::parse_duration(v) {
                Ok(d) => {
                    cfg.timeout = d;
                },
                Err(_) => {},
            }
        },
        _ => {
            let _ = apply_to(b, v, cfg, true);
        },
    }
}

/// Parses the bare flags of the serve mode (`--addr`, `--bearer`,
/// `--timeout`, `--tls-cert`, `--tls-key`, `--cors`, each also as
/// `--name=value`) over a configuration that already holds the global
/// parameters; the listen address defaults to ":8080".
pub fn parse_serve_args(args: &[String], cfg0: Config) -> (r: Config)
    ensures
        r.translations@ == cfg0.translations@,
        r@ == serve_spec(
            text::views(args@),
            0,
            if cfg0.addr@.len() == 0 { ConfigView { addr: ":8080"@, ..cfg0@ } } else { cfg0@ },
        ),
{
    let mut cfg = cfg0;
    if cfg.addr.as_str().is_empty() {
        cfg.addr = text::owned(":8080");
    }
    let ghost va = text::views(args@);
    let ghost c0 = cfg@;
    assert(c0 == (if cfg0.addr@.len() == 0 { ConfigView { addr: ":8080"@, ..cfg0@ } } else { cfg0@ }));
    let mut i: usize = 0;
    let mut stop = false;
    while i < args.len() && !stop
        invariant
            i <= args.len(),
            va == text::views(args@),
            cfg.translations@ == cfg0.translations@,
            !stop ==> serve_spec(va, 0, c0) == serve_spec(va, i as nat, cfg@),
            stop ==> serve_spec(va, 0, c0) == cfg@,
        decreases args.len() - i + (if stop { 0int } else { 1int }),
    {
        let a = args[i].as_str();
        assert(va[i as int] == a@);
        match serve_exact_of(a) {
            Some(b) => {
                if i + 1 >= args.len() {
                    stop = true;
                } else {
                    assert(va[i + 1] == args@[i + 1]@);
                    apply_serve_to(b, args[i + 1].as_str(), &mut cfg);
                    i += 2;
                }
            },
            None => {
                match serve_assign_of(a) {
                    Some((b, v)) => {
                        apply_serve_to(b, v.as_str(), &mut cfg);
                    },
                    None => {},
                }
                i += 1;
            },
        }
    }
    cfg
}

} // verus!
