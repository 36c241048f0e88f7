//! The CLI frontend's decisions for one run: the built-in `completion`
//! command, `-v/--version`, `--json`, descending the command tree
//! (aliases, the default subcommand), help requests, flag parsing, the
//! positional count, and the argument map handed to the command
//! (flag value, else env variable, else CLI default).
use vstd::prelude::*;
use crate::cli::completion;
use crate::cli::parse::{self, FlagKind, FlagVal, FlagValView};
use crate::cli::tree::{self, CliEntry, CmdTree, NodeView};
use crate::errors;
use crate::field::FieldMeta;
use crate::json::{self, Json, JsonView};
use crate::lang::{self, LangState};
use crate::text;
use crate::version::{self, VersionCell};

verus! {

/// Sets the version `-v` prints when the CLI runs embedded; it has effect
/// only before the version is first read or set.
pub fn set_cli_version(cell: &mut VersionCell, v: &'static str)
    ensures
        final(cell).fixed() == (match old(cell).fixed() {
            Some(f) => Some(f),
            None => Some(v@),
        }),
{
    version::set_version(cell, v)
}

/// The version `-v` prints: the one set for the CLI, else the global one
/// (reading fixes both).
pub fn cli_version(cell: &mut VersionCell, global: &mut VersionCell) -> (v: &'static str)
    ensures
        old(cell).fixed() is Some ==> v@ == old(cell).fixed()->Some_0 && *final(global) == *old(
            global,
        ),
        old(cell).fixed() is None ==> v@ == (if old(global).fixed() is Some {
            old(global).fixed()->Some_0
        } else {
            version::CRATE_VERSION@
        }),
        final(cell).fixed() == Some(v@),
{
    if cell.is_fixed() {
        return version::version(cell);
    }
    let g = version::version(global);
    version::version_or(cell, g)
}

/// The exit code of an error: the table's for its classification (usage
/// errors are `InvalidInput`, code 2).
pub fn exit_code_of(e: &errors::Error) -> (c: i32)
    ensures
        c == errors::exit_code_spec(e.class_spec()),
{
    match errors::classify(e) {
        Some(k) => errors::exit_code(k),
        None => 2,
    }
}

// ------------------------------------------------------------ descending
/// The child of `n` that argument `a` selects: a child with that segment,
/// or a leaf child with that alias (the first in order).
pub open spec fn hit_in(t: Seq<NodeView>, cs: Seq<int>, a: Seq<char>) -> Option<int>
    decreases cs.len(),
{
    if cs.len() == 0 {
        None
    } else if 0 <= cs[0] < t.len() && (t[cs[0]].segment == a || (t[cs[0]].entry is Some
        && t[cs[0]].aliases.contains(a))) {
        Some(cs[0])
    } else {
        hit_in(t, cs.drop_first(), a)
    }
}

/// Descends from node `n` consuming `args[k..]` while they select
/// children; an argument that selects none, is not a flag, and meets a
/// default subcommand moves to it without being consumed.  The result is
/// the node reached and the first argument not consumed.
pub open spec fn walk(t: Seq<NodeView>, n: int, args: Seq<Seq<char>>, k: int) -> (int, int)
    decreases args.len() - k,
{
    if k >= args.len() || k < 0 {
        (n, k)
    } else {
        match hit_in(t, t[n].children, args[k]) {
            Some(c) => walk(t, c, args, k + 1),
            None => match t[n].default_segment {
                Some(d) => if !text::is_prefix("-"@, args[k]) {
                    match tree::child_in(t, t[n].children, d) {
                        Some(c) => (c, k),
                        None => (n, k),
                    }
                } else {
                    (n, k)
                },
                None => (n, k),
            },
        }
    }
}

fn find_hit(tr: &CmdTree, n: usize, a: &str) -> (r: Option<usize>)
    requires
        n < tr.nodes.len(),
        tree::well_linked(tree::node_views(tr.nodes@)),
    ensures
        match r {
            Some(c) => hit_in(
                tree::node_views(tr.nodes@),
                tree::node_views(tr.nodes@)[n as int].children,
                a@,
            ) == Some(c as int) && c < tr.nodes.len(),
            None => hit_in(
                tree::node_views(tr.nodes@),
                tree::node_views(tr.nodes@)[n as int].children,
                a@,
            ) is None,
        },
{
    let ghost t = tree::node_views(tr.nodes@);
    let ghost cs = t[n as int].children;
    let mut i: usize = 0;
    assert(cs.skip(0) == cs);
    while i < tr.nodes[n].children.len()
        invariant
            n < tr.nodes.len(),
            t == tree::node_views(tr.nodes@),
            cs == t[n as int].children,
            tree::well_linked(t),
            i <= cs.len(),
            cs.len() == tr.nodes@[n as int].children@.len(),
            hit_in(t, cs, a@) == hit_in(t, cs.skip(i as int), a@),
        decreases cs.len() - i,
    {
        let c = tr.nodes[n].children[i];
        proof {
            assert(cs[i as int] == c as int);
            assert(cs.skip(i as int)[0] == cs[i as int]);
            assert(cs.skip(i as int).drop_first() == cs.skip(i + 1));
            assert(0 <= cs[i as int] < t.len());
        }
        let nd = &tr.nodes[c];
        assert(t[c as int] == nd@);
        let is_alias = nd.entry.is_some() && crate::builtins::contains_str(&nd.aliases, a);
        if text::str_eq(nd.segment.as_str(), a) || is_alias {
            return Some(c);
        }
        i += 1;
    }
    None
}

fn find_child_of(tr: &CmdTree, n: usize, seg: &str) -> (r: Option<usize>)
    requires
        n < tr.nodes.len(),
        tree::well_linked(tree::node_views(tr.nodes@)),
    ensures
        match r {
            Some(c) => tree::child_in(
                tree::node_views(tr.nodes@),
                tree::node_views(tr.nodes@)[n as int].children,
                seg@,
            ) == Some(c as int) && c < tr.nodes.len(),
            None => tree::child_in(
                tree::node_views(tr.nodes@),
                tree::node_views(tr.nodes@)[n as int].children,
                seg@,
            ) is None,
        },
{
    let ghost t = tree::node_views(tr.nodes@);
    let ghost cs = t[n as int].children;
    let mut i: usize = 0;
    assert(cs.skip(0) == cs);
    while i < tr.nodes[n].children.len()
        invariant
            n < tr.nodes.len(),
            t == tree::node_views(tr.nodes@),
            cs == t[n as int].children,
            tree::well_linked(t),
            i <= cs.len(),
            cs.len() == tr.nodes@[n as int].children@.len(),
            tree::child_in(t, cs, seg@) == tree::child_in(t, cs.skip(i as int), seg@),
        decreases cs.len() - i,
    {
        let c = tr.nodes[n].children[i];
        proof {
            assert(cs[i as int] == c as int);
            assert(cs.skip(i as int)[0] == cs[i as int]);
            assert(cs.skip(i as int).drop_first() == cs.skip(i + 1));
            assert(0 <= cs[i as int] < t.len());
        }
        assert(t[c as int].segment == tr.nodes@[c as int].segment@);
        if text::str_eq(tr.nodes[c].segment.as_str(), seg) {
            return Some(c);
        }
        i += 1;
    }
    None
}

/// Descends the tree along the arguments.
pub fn walk_args(tr: &CmdTree, args: &[String]) -> (r: (usize, usize))
    requires
        tree::well_linked(tree::node_views(tr.nodes@)),
    ensures
        (r.0 as int, r.1 as int) == walk(tree::node_views(tr.nodes@), 0, text::views(args@), 0),
        r.0 < tr.nodes.len(),
        r.1 <= args.len(),
{
    let ghost t = tree::node_views(tr.nodes@);
    let ghost va = text::views(args@);
    let mut n: usize = 0;
    let mut k: usize = 0;
    while k < args.len()
        invariant
            t == tree::node_views(tr.nodes@),
            va == text::views(args@),
            tree::well_linked(t),
            n < tr.nodes.len(),
            k <= args.len(),
            walk(t, 0, va, 0) == walk(t, n as int, va, k as int),
        decreases args.len() - k,
    {
        let a = args[k].as_str();
        assert(va[k as int] == a@);
        match find_hit(tr, n, a) {
            Some(c) => {
                n = c;
                k += 1;
            },
            None => {
                assert(t[n as int] == tr.nodes@[n as int]@);
                match &tr.nodes[n].default_segment {
                    Some(d) => {
                        if !text::str_starts_with(a, "-") {
                            match find_child_of(tr, n, d.as_str()) {
                                Some(c) => {
                                    return (c, k);
                                },
                                None => {
                                    return (n, k);
                                },
                            }
                        }
                        return (n, k);
                    },
                    None => {
                        return (n, k);
                    },
                }
            },
        }
    }
    (n, k)
}

// ------------------------------------------------------------ binding
/// An entry of an environment snapshot named `name` (the first one).
pub open spec fn env_lookup(env: Seq<(Seq<char>, Seq<char>)>, name: Seq<char>) -> Option<Seq<char>>
    decreases env.len(),
{
    if env.len() == 0 {
        None
    } else if env[0].0 == name {
        Some(env[0].1)
    } else {
        env_lookup(env.drop_first(), name)
    }
}

/// The views of an environment snapshot.
pub open spec fn env_views(env: Seq<(String, String)>) -> Seq<(Seq<char>, Seq<char>)> {
    env.map_values(|e: (String, String)| (e.0@, e.1@))
}

/// A non-empty value of the field's env variable, if it has one.
pub open spec fn env_value(f: FieldMeta, env: Seq<(Seq<char>, Seq<char>)>) -> Option<Seq<char>> {
    match f.cli.env_var {
        Some(ev) => match env_lookup(env, ev@) {
            Some(v) => if v.len() > 0 {
                Some(v)
            } else {
                None
            },
            None => None,
        },
        None => None,
    }
}

/// The JSON value of a flag that was given.
pub open spec fn given_value(kind: FlagKind, v: FlagValView) -> JsonView {
    match kind {
        FlagKind::Bool => JsonView::Bool(v.boolean),
        FlagKind::Slice => JsonView::Array(v.list.map_values(|s: Seq<char>| JsonView::Str(s))),
        FlagKind::Str => JsonView::Str(v.str),
    }
}

/// The value a flag field gets: the flag's own when given, else its env
/// variable's (when not empty), else its CLI default.
pub open spec fn flag_value(kind: FlagKind, v: FlagValView, f: FieldMeta, env: Seq<(Seq<char>, Seq<char>)>) -> Option<JsonView> {
    if v.seen {
        Some(given_value(kind, v))
    } else {
        match env_value(f, env) {
            Some(x) => Some(JsonView::Str(x)),
            None => match f.cli.default {
                Some(d) => Some(d@),
                None => None,
            },
        }
    }
}

/// Where a flag field's value comes from: the flag given on the command
/// line wins over its environment variable, which wins over its CLI
/// default; an empty environment value counts as absent.
pub proof fn lemma_flag_precedence(kind: FlagKind, v: FlagValView, f: FieldMeta, env: Seq<(Seq<char>, Seq<char>)>)
    ensures
        v.seen ==> flag_value(kind, v, f, env) == Some(given_value(kind, v)),
        !v.seen && env_value(f, env) is Some ==> flag_value(kind, v, f, env) == Some(
            JsonView::Str(env_value(f, env)->Some_0),
        ),
        !v.seen && env_value(f, env) is None ==> flag_value(kind, v, f, env) == crate::command::opt_json(
            f.cli.default,
        ),
        env_value(f, env) matches Some(x) ==> x.len() > 0,
{
}

/// An argument map with `k` set to `v` (replacing the value of an
/// existing key in place, otherwise appended).
pub open spec fn map_set(m: Seq<(Seq<char>, JsonView)>, k: Seq<char>, v: JsonView) -> Seq<(Seq<char>, JsonView)> {
    match key_pos(m, k) {
        Some(i) => m.update(i, (k, v)),
        None => m.push((k, v)),
    }
}

/// Where key `k` is in an argument map.
pub open spec fn key_pos(m: Seq<(Seq<char>, JsonView)>, k: Seq<char>) -> Option<int>
    decreases m.len(),
{
    if m.len() == 0 {
        None
    } else if m.last().0 == k {
        Some(m.len() - 1)
    } else {
        key_pos(m.drop_last(), k)
    }
}

/// The map after the first `i` flags.
pub open spec fn bind_flags(
    defs: Seq<parse::FlagDefView>,
    def_fields: Seq<int>,
    fields: Seq<FieldMeta>,
    vals: Seq<FlagValView>,
    env: Seq<(Seq<char>, Seq<char>)>,
    i: int,
) -> Seq<(Seq<char>, JsonView)>
    decreases i,
{
    if i <= 0 {
        Seq::empty()
    } else {
        let m = bind_flags(defs, def_fields, fields, vals, env, i - 1);
        let f = fields[def_fields[i - 1]];
        match flag_value(defs[i - 1].kind, vals[i - 1], f, env) {
            Some(v) => map_set(m, f.json_name@, v),
            None => m,
        }
    }
}

/// The map after the first `i` env-only fields: a non-empty env value is
/// delivered under the field's Rust name.
pub open spec fn bind_env_only(
    m: Seq<(Seq<char>, JsonView)>,
    env_only: Seq<int>,
    fields: Seq<FieldMeta>,
    env: Seq<(Seq<char>, Seq<char>)>,
    i: int,
) -> Seq<(Seq<char>, JsonView)>
    decreases i,
{
    if i <= 0 {
        m
    } else {
        let m2 = bind_env_only(m, env_only, fields, env, i - 1);
        let f = fields[env_only[i - 1]];
        match env_value(f, env) {
            Some(x) => map_set(m2, f.name@, JsonView::Str(x)),
            None => m2,
        }
    }
}

/// The map after the first `i` positional fields that have an argument.
pub open spec fn bind_pos(
    m: Seq<(Seq<char>, JsonView)>,
    pos_f: Seq<int>,
    fields: Seq<FieldMeta>,
    pos: Seq<Seq<char>>,
    i: int,
) -> Seq<(Seq<char>, JsonView)>
    decreases i,
{
    if i <= 0 {
        m
    } else {
        let m2 = bind_pos(m, pos_f, fields, pos, i - 1);
        if i - 1 < pos.len() {
            map_set(m2, fields[pos_f[i - 1]].json_name@, JsonView::Str(pos[i - 1]))
        } else {
            m2
        }
    }
}

/// The argument map of a leaf: flags (flag, env, CLI default), then the
/// env-only fields, then the positional arguments.
pub open spec fn bind_spec(
    leaf: tree::LeafView,
    fields: Seq<FieldMeta>,
    vals: Seq<FlagValView>,
    pos: Seq<Seq<char>>,
    env: Seq<(Seq<char>, Seq<char>)>,
) -> Seq<(Seq<char>, JsonView)> {
    let m1 = bind_flags(leaf.defs, leaf.def_fields, fields, vals, env, leaf.defs.len() as int);
    let m2 = bind_env_only(m1, leaf.env_only, fields, env, leaf.env_only.len() as int);
    bind_pos(m2, leaf.pos_f, fields, pos, leaf.pos_f.len() as int)
}

/// The views of an argument map.
pub open spec fn arg_views(m: Seq<(String, Json)>) -> Seq<(Seq<char>, JsonView)> {
    m.map_values(|e: (String, Json)| (e.0@, e.1@))
}

/// Sets key `k` of an argument map to `v`: an existing key keeps its
/// place, a new one goes last.
pub fn map_put(m: &mut Vec<(String, Json)>, k: String, v: Json)
    ensures
        arg_views(final(m)@) == map_set(arg_views(old(m)@), k@, v@),
{
    let ghost mv = arg_views(m@);
    let ghost kv = k@;
    let ghost vv = v@;
    let mut i: usize = m.len();
    assert(mv.take(m.len() as int) == mv);
    while i > 0
        invariant
            i <= m.len(),
            mv == arg_views(m@),
            mv == arg_views(old(m)@),
            kv == k@,
            vv == v@,
            key_pos(mv, kv) == key_pos(mv.take(i as int), kv),
        decreases i,
    {
        proof {
            assert(mv.take(i as int).last() == mv[i - 1]);
            assert(mv.take(i as int).drop_last() == mv.take(i - 1));
        }
        if text::str_eq(m[i - 1].0.as_str(), k.as_str()) {
            assert(mv[i - 1].0 == kv);
            assert(key_pos(mv, kv) == Some(i - 1));
            m.set(i - 1, (k, v));
            assert(arg_views(m@) =~= mv.update(i - 1, (kv, vv)));
            return;
        }
        i -= 1;
    }
    m.push((k, v));
    assert(arg_views(m@) =~= mv.push((kv, vv)));
}

fn env_get<'a>(env: &'a Vec<(String, String)>, name: &str) -> (r: Option<&'a String>)
    ensures
        match r {
            Some(v) => env_lookup(env_views(env@), name@) == Some(v@),
            None => env_lookup(env_views(env@), name@) is None,
        },
{
    let ghost ev = env_views(env@);
    let mut i: usize = 0;
    assert(ev.skip(0) == ev);
    while i < env.len()
        invariant
            i <= env.len(),
            ev == env_views(env@),
            env_lookup(ev, name@) == env_lookup(ev.skip(i as int), name@),
        decreases env.len() - i,
    {
        proof {
            assert(ev.skip(i as int)[0] == (env@[i as int].0@, env@[i as int].1@));
            assert(ev.skip(i as int).drop_first() == ev.skip(i + 1));
        }
        if text::str_eq(env[i].0.as_str(), name) {
            return Some(&env[i].1);
        }
        i += 1;
    }
    None
}

fn env_value_of(f: &FieldMeta, env: &Vec<(String, String)>) -> (r: Option<String>)
    ensures
        match r {
            Some(x) => env_value(*f, env_views(env@)) == Some(x@),
            None => env_value(*f, env_views(env@)) is None,
        },
{
    match &f.cli.env_var {
        Some(ev) => match env_get(env, ev.as_str()) {
            Some(v) => if v.as_str().is_empty() {
                None
            } else {
                Some(v.clone())
            },
            None => None,
        },
        None => None,
    }
}

fn given_json(kind: FlagKind, v: &FlagVal) -> (r: Json)
    ensures
        r@ == given_value(kind, v@),
{
    match kind {
        FlagKind::Bool => Json::Bool(v.boolean),
        FlagKind::Slice => {
            let mut items: Vec<Json> = Vec::new();
            let mut i: usize = 0;
            let ghost lv = text::views(v.list@);
            while i < v.list.len()
                invariant
                    i <= v.list.len(),
                    lv == text::views(v.list@),
                    json::items_view(items@) == lv.take(i as int).map_values(
                        |s: Seq<char>| JsonView::Str(s),
                    ),
                decreases v.list.len() - i,
            {
                let ghost before = items@;
                let item = Json::Str(v.list[i].clone());
                assert(item@ == JsonView::Str(lv[i as int]));
                items.push(item);
                proof {
                    assert(items@.drop_last() == before);
                    assert(json::items_view(items@) == json::items_view(before) + seq![item@]);
                    assert(lv.take(i + 1) == lv.take(i as int).push(lv[i as int]));
                    assert(lv.take(i + 1).map_values(|s: Seq<char>| JsonView::Str(s))
                        =~= lv.take(i as int).map_values(|s: Seq<char>| JsonView::Str(s)).push(
                        JsonView::Str(lv[i as int]),
                    ));
                }
                i += 1;
            }
            assert(lv.take(v.list.len() as int) == lv);
            Json::Array(items)
        },
        FlagKind::Str => Json::Str(v.str.clone()),
    }
}

/// Builds a leaf's argument map.
pub fn bind_args(
    leaf: &tree::Leaf,
    fields: &Vec<FieldMeta>,
    vals: &Vec<FlagVal>,
    pos: &Vec<String>,
    env: &Vec<(String, String)>,
) -> (r: Vec<(String, Json)>)
    requires
        leaf.defs.len() == leaf.def_fields.len(),
        vals.len() == leaf.defs.len(),
        forall|k: int| 0 <= k < leaf.def_fields@.len() ==> leaf.def_fields@[k] < fields.len(),
        forall|k: int| 0 <= k < leaf.env_only@.len() ==> leaf.env_only@[k] < fields.len(),
        forall|k: int| 0 <= k < leaf.pos_f@.len() ==> leaf.pos_f@[k] < fields.len(),
    ensures
        arg_views(r@) == bind_spec(
            leaf@,
            fields@,
            parse::val_views(vals@),
            text::views(pos@),
            env_views(env@),
        ),
{
    let ghost lv = leaf@;
    let ghost vv = parse::val_views(vals@);
    let ghost ev = env_views(env@);
    let ghost pv = text::views(pos@);
    let mut m: Vec<(String, Json)> = Vec::new();
    let mut i: usize = 0;
    assert(arg_views(m@) =~= Seq::<(Seq<char>, JsonView)>::empty());
    while i < leaf.defs.len()
        invariant
            i <= leaf.defs.len(),
            leaf.defs.len() == leaf.def_fields.len(),
            vals.len() == leaf.defs.len(),
            lv == leaf@,
            vv == parse::val_views(vals@),
            ev == env_views(env@),
            forall|k: int| 0 <= k < leaf.def_fields@.len() ==> leaf.def_fields@[k] < fields.len(),
            arg_views(m@) == bind_flags(lv.defs, lv.def_fields, fields@, vv, ev, i as int),
        decreases leaf.defs.len() - i,
    {
        let fi = leaf.def_fields[i];
        let f = &fields[fi];
        let kind = leaf.defs[i].kind;
        proof {
            assert(lv.def_fields[i as int] == fi as int);
            assert(lv.defs[i as int].kind == kind);
            assert(vv[i as int] == vals@[i as int]@);
        }
        if vals[i].seen {
            let v = given_json(kind, &vals[i]);
            map_put(&mut m, f.json_name.clone(), v);
        } else {
            match env_value_of(f, env) {
                Some(x) => {
                    map_put(&mut m, f.json_name.clone(), Json::Str(x));
                },
                None => match &f.cli.default {
                    Some(d) => {
                        let dv = json::clone_json(d);
                        map_put(&mut m, f.json_name.clone(), dv);
                    },
                    None => {},
                },
            }
        }
        i += 1;
    }
    let ghost m1 = arg_views(m@);
    let mut j: usize = 0;
    while j < leaf.env_only.len()
        invariant
            j <= leaf.env_only.len(),
            lv == leaf@,
            ev == env_views(env@),
            forall|k: int| 0 <= k < leaf.env_only@.len() ==> leaf.env_only@[k] < fields.len(),
            arg_views(m@) == bind_env_only(m1, lv.env_only, fields@, ev, j as int),
        decreases leaf.env_only.len() - j,
    {
        let fi = leaf.env_only[j];
        assert(lv.env_only[j as int] == fi as int);
        let f = &fields[fi];
        match env_value_of(f, env) {
            Some(x) => {
                map_put(&mut m, f.name.clone(), Json::Str(x));
            },
            None => {},
        }
        j += 1;
    }
    let ghost m2 = arg_views(m@);
    let mut k: usize = 0;
    while k < leaf.pos_f.len()
        invariant
            k <= leaf.pos_f.len(),
            lv == leaf@,
            pv == text::views(pos@),
            forall|q: int| 0 <= q < leaf.pos_f@.len() ==> leaf.pos_f@[q] < fields.len(),
            arg_views(m@) == bind_pos(m2, lv.pos_f, fields@, pv, k as int),
        decreases leaf.pos_f.len() - k,
    {
        let fi = leaf.pos_f[k];
        assert(lv.pos_f[k as int] == fi as int);
        if k < pos.len() {
            assert(pv[k as int] == pos@[k as int]@);
            map_put(&mut m, fields[fi].json_name.clone(), Json::Str(pos[k].clone()));
        }
        k += 1;
    }
    m
}

// ------------------------------------------------------------ one run
/// What one run of the CLI frontend does.
#[derive(Debug)]
pub enum CliAction {
    /// The `completion` command: exit code, standard output, standard error.
    Completion(i32, String, String),
    /// Print `<bin> version <version>` and exit 0.
    Version,
    /// Print the help of this node and exit 0.
    Help(usize),
    /// Run the command of this node (entry index) with these arguments;
    /// the flag says whether `--json` was given.
    Invoke(usize, usize, Vec<(String, Json)>, bool),
    /// A usage error (printed to standard error; its exit code follows
    /// its classification).
    Fail(errors::Error),
}

/// A run's action as plain values.
pub enum ActionView {
    Completion(int, Seq<char>, Seq<char>),
    Version,
    Help(int),
    Invoke(int, int, Seq<(Seq<char>, JsonView)>, bool),
    Fail(Seq<char>, errors::Kind),
}

impl View for CliAction {
    type V = ActionView;

    open spec fn view(&self) -> ActionView {
        match self {
            CliAction::Completion(c, o, e) => ActionView::Completion(*c as int, o@, e@),
            CliAction::Version => ActionView::Version,
            CliAction::Help(n) => ActionView::Help(*n as int),
            CliAction::Invoke(n, e, m, j) => ActionView::Invoke(*n as int, *e as int, arg_views(m@), *j),
            CliAction::Fail(e) => ActionView::Fail(e.text_spec(), e.class_spec()),
        }
    }
}

/// The arguments before the first `--` (all of them without one).
pub open spec fn before_dashes(args: Seq<Seq<char>>) -> Seq<Seq<char>>
    decreases args.len(),
{
    if args.len() == 0 || args[0] == "--"@ {
        Seq::empty()
    } else {
        seq![args[0]] + before_dashes(args.drop_first())
    }
}

/// The arguments with every `--json` before the first `--` removed.
pub open spec fn without_json(args: Seq<Seq<char>>) -> Seq<Seq<char>>
    decreases args.len(),
{
    if args.len() == 0 || args[0] == "--"@ {
        args
    } else if args[0] == "--json"@ {
        without_json(args.drop_first())
    } else {
        seq![args[0]] + without_json(args.drop_first())
    }
}

/// The segments of the root's children (the completion words).
pub open spec fn top_words(t: Seq<NodeView>) -> Seq<Seq<char>> {
    t[0].children.map_values(|c: int| t[c].segment)
}

/// Whether a leaf's field indices all point into the fields.
pub open spec fn leaf_fits(l: tree::LeafView, nfields: int) -> bool {
    &&& l.defs.len() == l.def_fields.len()
    &&& forall|k: int| 0 <= k < l.def_fields.len() ==> 0 <= #[trigger] l.def_fields[k] < nfields
    &&& forall|k: int| 0 <= k < l.env_only.len() ==> 0 <= #[trigger] l.env_only[k] < nfields
    &&& forall|k: int| 0 <= k < l.pos_f.len() ==> 0 <= #[trigger] l.pos_f[k] < nfields
}

/// The text of an error made from message `m` (its kind's name when the
/// message is empty).
pub open spec fn shown(m: Seq<char>, k: errors::Kind) -> Seq<char> {
    if m.len() > 0 {
        m
    } else {
        errors::kind_name(k)
    }
}

/// The message of a wrong positional count.
pub open spec fn pos_count_message(st: LangState, path: Seq<char>, lo: nat, hi: nat, got: nat) -> Seq<char> {
    lang::fill(
        lang::t_spec(st, "cli.err_positional_count"@),
        seq![text::replace_all(path, "."@, " "@), text::decimal(lo), text::decimal(hi), text::decimal(got)],
    )
}

/// The action of a run once the node is reached and the leaf known.
pub open spec fn leaf_action(
    t: Seq<NodeView>,
    entries: Seq<CliEntry>,
    n: int,
    rest: Seq<Seq<char>>,
    json: bool,
    env: Seq<(Seq<char>, Seq<char>)>,
    st: LangState,
) -> ActionView {
    match t[n].leaf {
        None => ActionView::Help(n),
        Some(l) => match parse::parse_spec(l.defs, rest) {
            Err(m) => ActionView::Fail(m, errors::Kind::InvalidInput),
            Ok((vals, pos)) => if pos.len() < l.min_pos || pos.len() > l.max_pos {
                ActionView::Fail(
                    shown(
                        pos_count_message(st, t[n].path, l.min_pos, l.max_pos, pos.len()),
                        errors::Kind::InvalidInput,
                    ),
                    errors::Kind::InvalidInput,
                )
            } else {
                match t[n].entry {
                    Some(e) => if 0 <= e < entries.len() && leaf_fits(l, entries[e].fields@.len() as int)
                        && vals.len() == l.defs.len() {
                        ActionView::Invoke(n, e, bind_spec(l, entries[e].fields@, vals, pos, env), json)
                    } else {
                        ActionView::Fail("leaf without entry"@, errors::Kind::Internal)
                    },
                    None => ActionView::Fail("leaf without entry"@, errors::Kind::Internal),
                }
            },
        },
    }
}

/// One run of the CLI frontend over `args`: `completion [shell]` prints a
/// completion script; `-v`/`--version` before any `--` prints the
/// version; `--json` before any `--` asks for JSON output and is removed;
/// then the tree is descended, `-h`/`--help` or a group node prints help,
/// and a leaf's flags and positional arguments are bound.
pub open spec fn plan_spec(
    t: Seq<NodeView>,
    entries: Seq<CliEntry>,
    args: Seq<Seq<char>>,
    env: Seq<(Seq<char>, Seq<char>)>,
    st: LangState,
    bin: Seq<char>,
) -> ActionView {
    if args.len() > 0 && args[0] == "completion"@ {
        let shell = if args.len() > 1 {
            args[1]
        } else {
            "bash"@
        };
        let (c, o, e) = completion::completion_spec(top_words(t), bin, shell);
        ActionView::Completion(c, o, e)
    } else if before_dashes(args).contains("-v"@) || before_dashes(args).contains("--version"@) {
        ActionView::Version
    } else {
        let json = before_dashes(args).contains("--json"@);
        let filtered = without_json(args);
        let (n, k) = walk(t, 0, filtered, 0);
        let rest = filtered.skip(k);
        if rest.contains("-h"@) || rest.contains("--help"@) {
            ActionView::Help(n)
        } else {
            leaf_action(t, entries, n, rest, json, env, st)
        }
    }
}

/// Scans the arguments before `--` for `-v`, `--version` and `--json`.
fn scan_switches(args: &[String]) -> (r: (bool, bool))
    ensures
        r.0 == (before_dashes(text::views(args@)).contains("-v"@) || before_dashes(
            text::views(args@),
        ).contains("--version"@)),
        r.1 == before_dashes(text::views(args@)).contains("--json"@),
{
    let ghost va = text::views(args@);
    let mut i: usize = 0;
    let mut ver = false;
    let mut json = false;
    let mut stop = false;
    proof {
        reveal_strlit("--");
        assert(va.skip(0) == va);
    }
    while i < args.len() && !stop
        invariant
            i <= args.len(),
            va == text::views(args@),
            !stop ==> before_dashes(va) == va.take(i as int) + before_dashes(va.skip(i as int)),
            stop ==> before_dashes(va) == va.take(i as int),
            !stop ==> forall|k: int| 0 <= k < i ==> va[k] != "--"@,
            ver == (va.take(i as int).contains("-v"@) || va.take(i as int).contains("--version"@)),
            json == va.take(i as int).contains("--json"@),
        decreases args.len() - i + (if stop { 0int } else { 1int }),
    {
        let a = args[i].as_str();
        assert(va[i as int] == a@);
        proof {
            assert(va.skip(i as int)[0] == a@);
            assert(va.skip(i as int).drop_first() == va.skip(i + 1));
        }
        if text::str_eq(a, "--") {
            stop = true;
            proof {
                assert(before_dashes(va.skip(i as int)) == Seq::<Seq<char>>::empty());
                assert(va.take(i as int) + Seq::<Seq<char>>::empty() == va.take(i as int));
            }
        } else {
            let is_v = text::str_eq(a, "-v") || text::str_eq(a, "--version");
            let is_j = text::str_eq(a, "--json");
            proof {
                let p = va.take(i as int);
                let p2 = va.take(i + 1);
                assert(p2 == p.push(a@));
                assert(p2.contains("-v"@) == (p.contains("-v"@) || a@ == "-v"@)) by {
                    if p2.contains("-v"@) && !p.contains("-v"@) {
                        let q = choose|q: int| 0 <= q < p2.len() && p2[q] == "-v"@;
                        if q < p.len() {
                            assert(p[q] == p2[q]);
                        }
                    }
                    if p.contains("-v"@) {
                        let q = choose|q: int| 0 <= q < p.len() && p[q] == "-v"@;
                        assert(p2[q] == p[q]);
                    }
                    if a@ == "-v"@ {
                        assert(p2[i as int] == a@);
                    }
                }
                assert(p2.contains("--version"@) == (p.contains("--version"@) || a@ == "--version"@)) by {
                    if p2.contains("--version"@) && !p.contains("--version"@) {
                        let q = choose|q: int| 0 <= q < p2.len() && p2[q] == "--version"@;
                        if q < p.len() {
                            assert(p[q] == p2[q]);
                        }
                    }
                    if p.contains("--version"@) {
                        let q = choose|q: int| 0 <= q < p.len() && p[q] == "--version"@;
                        assert(p2[q] == p[q]);
                    }
                    if a@ == "--version"@ {
                        assert(p2[i as int] == a@);
                    }
                }
                assert(p2.contains("--json"@) == (p.contains("--json"@) || a@ == "--json"@)) by {
                    if p2.contains("--json"@) && !p.contains("--json"@) {
                        let q = choose|q: int| 0 <= q < p2.len() && p2[q] == "--json"@;
                        if q < p.len() {
                            assert(p[q] == p2[q]);
                        }
                    }
                    if p.contains("--json"@) {
                        let q = choose|q: int| 0 <= q < p.len() && p[q] == "--json"@;
                        assert(p2[q] == p[q]);
                    }
                    if a@ == "--json"@ {
                        assert(p2[i as int] == a@);
                    }
                }
                assert(va.take(i as int) + before_dashes(va.skip(i as int)) == p2 + before_dashes(
                    va.skip(i + 1),
                ));
            }
            ver = ver || is_v;
            json = json || is_j;
            i += 1;
        }
    }
    proof {
        if !stop {
            assert(va.skip(i as int).len() == 0);
            assert(va.take(i as int) + Seq::<Seq<char>>::empty() == va.take(i as int));
        }
    }
    (ver, json)
}

/// The arguments with `--json` removed before the first `--`.
fn strip_json(args: &[String]) -> (r: Vec<String>)
    ensures
        text::views(r@) == without_json(text::views(args@)),
{
    let ghost va = text::views(args@);
    let mut out: Vec<String> = Vec::new();
    let mut i: usize = 0;
    let mut dashed = false;
    proof {
        reveal_strlit("--");
        reveal_strlit("--json");
        assert(va.skip(0) == va);
    }
    while i < args.len()
        invariant
            i <= args.len(),
            va == text::views(args@),
            !dashed ==> without_json(va) == text::views(out@) + without_json(va.skip(i as int)),
            dashed ==> without_json(va) == text::views(out@) + va.skip(i as int),
        decreases args.len() - i,
    {
        let a = args[i].as_str();
        proof {
            assert(va[i as int] == a@);
            assert(va.skip(i as int)[0] == a@);
            assert(va.skip(i as int).drop_first() == va.skip(i + 1));
        }
        let ghost before = text::views(out@);
        if !dashed && text::str_eq(a, "--") {
            dashed = true;
            out.push(args[i].clone());
            assert(text::views(out@) == before + seq![a@]);
            assert(before + va.skip(i as int) == text::views(out@) + va.skip(i + 1));
        } else if !dashed && text::str_eq(a, "--json") {
        } else {
            out.push(args[i].clone());
            assert(text::views(out@) == before + seq![a@]);
            proof {
                if dashed {
                    assert(before + va.skip(i as int) == text::views(out@) + va.skip(i + 1));
                } else {
                    assert(before + (seq![a@] + without_json(va.skip(i + 1))) == text::views(out@)
                        + without_json(va.skip(i + 1)));
                }
            }
        }
        i += 1;
    }
    proof {
        assert(va.skip(i as int).len() == 0);
        assert(text::views(out@) + Seq::<Seq<char>>::empty() == text::views(out@));
    }
    out
}

/// Whether a leaf's field indices all point into `n` fields.
fn fits(l: &tree::Leaf, n: usize) -> (r: bool)
    ensures
        r == leaf_fits(l@, n as int),
{
    if l.defs.len() != l.def_fields.len() {
        return false;
    }
    let mut i: usize = 0;
    while i < l.def_fields.len()
        invariant
            i <= l.def_fields.len(),
            forall|k: int| 0 <= k < i ==> l.def_fields@[k] < n,
        decreases l.def_fields.len() - i,
    {
        if l.def_fields[i] >= n {
            assert(l@.def_fields[i as int] == l.def_fields@[i as int] as int);
            return false;
        }
        i += 1;
    }
    let mut j: usize = 0;
    while j < l.env_only.len()
        invariant
            j <= l.env_only.len(),
            forall|k: int| 0 <= k < j ==> l.env_only@[k] < n,
        decreases l.env_only.len() - j,
    {
        if l.env_only[j] >= n {
            assert(l@.env_only[j as int] == l.env_only@[j as int] as int);
            return false;
        }
        j += 1;
    }
    let mut k: usize = 0;
    while k < l.pos_f.len()
        invariant
            k <= l.pos_f.len(),
            forall|q: int| 0 <= q < k ==> l.pos_f@[q] < n,
        decreases l.pos_f.len() - k,
    {
        if l.pos_f[k] >= n {
            assert(l@.pos_f[k as int] == l.pos_f@[k as int] as int);
            return false;
        }
        k += 1;
    }
    true
}

/// Whether a list holds `-h` or `--help`.
fn asks_help(v: &Vec<String>) -> (r: bool)
    ensures
        r == (text::views(v@).contains("-h"@) || text::views(v@).contains("--help"@)),
{
    crate::builtins::contains_str(v, "-h") || crate::builtins::contains_str(v, "--help")
}

fn pos_count_error(st: &LangState, path: &str, lo: usize, hi: usize, got: usize) -> (e: errors::Error)
    ensures
        e.kind_spec() == errors::Kind::InvalidInput && e.class_spec() == errors::Kind::InvalidInput,
        e.kind_spec() == errors::Kind::InvalidInput,
        e.text_spec() == shown(
            pos_count_message(*st, path@, lo as nat, hi as nat, got as nat),
            errors::Kind::InvalidInput,
        ),
{
    let p = text::replace(path, ".", " ");
    let a = text::decimal_of(lo as u64);
    let b = text::decimal_of(hi as u64);
    let c = text::decimal_of(got as u64);
    let ps = [p.as_str(), a.as_str(), b.as_str(), c.as_str()];
    proof {
        assert(ps@.map_values(|x: &str| x@) =~= seq![
            text::replace_all(path@, "."@, " "@),
            text::decimal(lo as nat),
            text::decimal(hi as nat),
            text::decimal(got as nat),
        ]);
    }
    let m = lang::tf(st, "cli.err_positional_count", &ps);
    errors::new(errors::Kind::InvalidInput, m)
}

/// Decides one run of the CLI frontend.
#[verifier::rlimit(40)]
pub fn plan(
    tr: &CmdTree,
    entries: &[CliEntry],
    args: &[String],
    env: &Vec<(String, String)>,
    st: &LangState,
    bin: &str,
) -> (r: CliAction)
    requires
        tree::well_linked(tree::node_views(tr.nodes@)),
    ensures
        r@ == plan_spec(
            tree::node_views(tr.nodes@),
            entries@,
            text::views(args@),
            env_views(env@),
            *st,
            bin@,
        ),
        r matches CliAction::Fail(e) ==> e.kind_spec() == e.class_spec(),
{
    let ghost t = tree::node_views(tr.nodes@);
    let ghost va = text::views(args@);
    proof {
        reveal_strlit("completion");
        reveal_strlit("bash");
        reveal_strlit("leaf without entry");
    }
    if args.len() > 0 && text::str_eq(args[0].as_str(), "completion") {
        assert(va[0] == args@[0]@);
        let shell = if args.len() > 1 {
            args[1].as_str()
        } else {
            "bash"
        };
        if args.len() > 1 {
            assert(va[1] == args@[1]@);
        }
        let mut top: Vec<String> = Vec::new();
        let mut i: usize = 0;
        assert(t[0] == tr.nodes@[0]@);
        while i < tr.nodes[0].children.len()
            invariant
                t == tree::node_views(tr.nodes@),
                tree::well_linked(t),
                i <= t[0].children.len(),
                t[0].children.len() == tr.nodes@[0].children@.len(),
                top@.map_values(|s: String| s@) == top_words(t).take(i as int),
            decreases t[0].children.len() - i,
        {
            let c = tr.nodes[0].children[i];
            proof {
                assert(t[0].children[i as int] == c as int);
                assert(0 <= t[0].children[i as int] < t.len());
            }
            assert(t[c as int].segment == tr.nodes@[c as int].segment@);
            let ghost before = top@;
            top.push(tr.nodes[c].segment.clone());
            proof {
                assert(top@.map_values(|s: String| s@) =~= before.map_values(|s: String| s@).push(
                    t[c as int].segment,
                ));
                assert(top_words(t).take(i + 1) =~= top_words(t).take(i as int).push(
                    t[c as int].segment,
                ));
            }
            i += 1;
        }
        assert(top_words(t).take(i as int) =~= top_words(t));
        let (c, o, e) = completion::print_completion(&top, bin, shell);
        return CliAction::Completion(c, o, e);
    }
    let (ver, json) = scan_switches(args);
    if ver {
        return CliAction::Version;
    }
    let filtered = strip_json(args);
    let (n, k) = walk_args(tr, &filtered);
    let mut rest: Vec<String> = Vec::new();
    let mut j: usize = k;
    let ghost fv = text::views(filtered@);
    assert(fv.subrange(k as int, k as int) =~= Seq::<Seq<char>>::empty());
    while j < filtered.len()
        invariant
            k <= j <= filtered.len(),
            fv == text::views(filtered@),
            text::views(rest@) == fv.subrange(k as int, j as int),
        decreases filtered.len() - j,
    {
        let ghost before = text::views(rest@);
        rest.push(filtered[j].clone());
        assert(text::views(rest@) == before.push(fv[j as int]));
        assert(fv.subrange(k as int, j + 1) == fv.subrange(k as int, j as int).push(fv[j as int]));
        j += 1;
    }
    assert(fv.subrange(k as int, filtered.len() as int) == fv.skip(k as int));
    if asks_help(&rest) {
        return CliAction::Help(n);
    }
    let node = &tr.nodes[n];
    assert(t[n as int] == node@);
    let leaf = match &node.leaf {
        Some(l) => l,
        None => {
            return CliAction::Help(n);
        },
    };
    let (vals, pos) = match parse::parse_flags(leaf.defs.as_slice(), rest.as_slice()) {
        Ok(p) => p,
        Err(e) => {
            return CliAction::Fail(e);
        },
    };
    if pos.len() < leaf.min_pos || pos.len() > leaf.max_pos {
        let e = pos_count_error(st, node.path.as_str(), leaf.min_pos, leaf.max_pos, pos.len());
        return CliAction::Fail(e);
    }
    match node.entry {
        Some(ei) => {
            if ei < entries.len() && fits(leaf, entries[ei].fields.len()) && vals.len()
                == leaf.defs.len() {
                let nf = entries[ei].fields.len();
                proof {
                    assert forall|q: int| 0 <= q < leaf.def_fields@.len() implies leaf.def_fields@[q]
                        < nf by {
                        assert(leaf@.def_fields[q] == leaf.def_fields@[q] as int);
                    }
                    assert forall|q: int| 0 <= q < leaf.env_only@.len() implies leaf.env_only@[q]
                        < nf by {
                        assert(leaf@.env_only[q] == leaf.env_only@[q] as int);
                    }
                    assert forall|q: int| 0 <= q < leaf.pos_f@.len() implies leaf.pos_f@[q] < nf by {
                        assert(leaf@.pos_f[q] == leaf.pos_f@[q] as int);
                    }
                }
                let m = bind_args(leaf, &entries[ei].fields, &vals, &pos, env);
                return CliAction::Invoke(n, ei, m, json);
            }
            CliAction::Fail(
                errors::new(errors::Kind::Internal, text::owned("leaf without entry")),
            )
        },
        None => CliAction::Fail(
            errors::new(errors::Kind::Internal, text::owned("leaf without entry")),
        ),
    }
}


// ------------------------------------------------------------ aliases
/// Whether argument `a` selects node `x` among its siblings: by its
/// segment, or, for a command, by one of its aliases.
pub open spec fn selects(t: Seq<NodeView>, x: int, a: Seq<char>) -> bool {
    0 <= x < t.len() && (t[x].segment == a || (t[x].entry is Some && t[x].aliases.contains(a)))
}

/// The child that a word selects is the first sibling it selects.
proof fn lemma_first_hit(t: Seq<NodeView>, cs: Seq<int>, a: Seq<char>, j: int)
    requires
        0 <= j < cs.len(),
        selects(t, cs[j], a),
        forall|i: int| 0 <= i < j ==> !selects(t, #[trigger] cs[i], a),
    ensures
        hit_in(t, cs, a) == Some(cs[j]),
    decreases j,
{
    if j > 0 {
        assert(!selects(t, cs[0], a));
        lemma_first_hit(t, cs.drop_first(), a, j - 1);
    }
}

/// The walk from argument `k` on reads only the arguments from `k` on.
proof fn lemma_walk_tail(t: Seq<NodeView>, n: int, a1: Seq<Seq<char>>, a2: Seq<Seq<char>>, k: int)
    requires
        a1.len() == a2.len(),
        forall|i: int| k <= i < a1.len() ==> a1[i] == a2[i],
    ensures
        walk(t, n, a1, k) == walk(t, n, a2, k),
    decreases a1.len() - k,
{
    if 0 <= k < a1.len() {
        assert(a1[k] == a2[k]);
        match hit_in(t, t[n].children, a1[k]) {
            Some(c) => {
                lemma_walk_tail(t, c, a1, a2, k + 1);
            },
            None => {},
        }
    }
}

/// An alias of a command resolves as the command's segment does: where no
/// earlier sibling is selected by either word, the walk from the parent
/// reaches the same node whether the argument at `k` is the command's
/// segment or that alias, whatever the other arguments are.
pub proof fn lemma_alias_walks_like_segment(
    t: Seq<NodeView>,
    n: int,
    args: Seq<Seq<char>>,
    k: int,
    j: int,
    w: Seq<char>,
)
    requires
        0 <= n < t.len(),
        0 <= k < args.len(),
        0 <= j < t[n].children.len(),
        0 <= t[n].children[j] < t.len(),
        t[t[n].children[j]].entry is Some,
        t[t[n].children[j]].aliases.contains(w),
        forall|i: int|
            0 <= i < j ==> !selects(t, #[trigger] t[n].children[i], w) && !selects(
                t,
                t[n].children[i],
                t[t[n].children[j]].segment,
            ),
    ensures
        walk(t, n, args.update(k, w), k) == walk(t, n, args.update(k, t[t[n].children[j]].segment), k),
{
    let cs = t[n].children;
    let c = cs[j];
    let seg = t[c].segment;
    let a1 = args.update(k, w);
    let a2 = args.update(k, seg);
    assert forall|i: int| 0 <= i < j implies !selects(t, #[trigger] cs[i], w) by {}
    assert forall|i: int| 0 <= i < j implies !selects(t, #[trigger] cs[i], seg) by {}
    lemma_first_hit(t, cs, w, j);
    lemma_first_hit(t, cs, seg, j);
    assert(a1[k] == w);
    assert(a2[k] == seg);
    lemma_walk_tail(t, c, a1, a2, k + 1);
}

} // verus!
