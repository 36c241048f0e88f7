//! The command tree of the CLI frontend: dotted registry names become
//! nested subcommand segments; aliases stand beside their command in the
//! parent's lookup (not in its help list); leaves carry their flags,
//! env-only injection points and positional constraints.
use vstd::prelude::*;
use crate::cli::parse::{FlagDef, FlagDefView, FlagKind};
use crate::errors;
use crate::field::{self, FieldKind, FieldMeta, FieldView};
use crate::text;

verus! {

/// The CLI configuration of one command.
#[derive(Debug)]
pub struct CliHints {
    /// A one-line call form relative to the parent, such as `add <name>`.
    pub usage: String,
    /// Equivalent spellings of the last segment.
    pub aliases: Vec<String>,
    /// Left out of the help list.
    pub hidden: bool,
    /// The default subcommand of its parent.
    pub default: bool,
    /// Removed from the CLI altogether.
    pub skip: bool,
    /// A long-running command (runs until cancelled).
    pub daemon: bool,
    /// Custom help blocks printed first and last in `-h`.
    pub before: String,
    pub after: String,
    /// Field hints, by a top-level field's JSON or Rust name.
    pub fields: Vec<(String, crate::command::CliFieldHint)>,
}

/// What the CLI frontend reads of a registered command.
#[derive(Debug)]
pub struct CliEntry {
    pub name: String,
    pub summary: String,
    pub description: String,
    pub cli: CliHints,
    /// The top-level fields of the argument struct.
    pub fields: Vec<FieldMeta>,
}

// ------------------------------------------------------------ leaves
/// The `{:?}` form of an optional shape.
pub open spec fn opt_kind_debug(k: Option<FieldKind>) -> Seq<char> {
    match k {
        Some(x) => "Some("@ + field::kind_debug(x) + ")"@,
        None => "None"@,
    }
}

/// The prefix of a tree-building message about a command's field.
pub open spec fn field_prefix(cmd: Seq<char>, f: FieldView) -> Seq<char> {
    "cli: command "@ + text::quoted(cmd) + ": field "@ + text::quoted(f.json_name) + ": "@
}

/// How a field becomes a flag, and whether it does: slices of structs,
/// pointers and slices, nested structs and pointers to structs are
/// refused; unions are left out of the CLI.
pub open spec fn flag_kind_spec(f: FieldView, cmd: Seq<char>) -> Result<(FlagKind, bool), Seq<char>> {
    match f.kind {
        FieldKind::Bool => Ok((FlagKind::Bool, true)),
        FieldKind::Slice => match f.elem_kind {
            Some(FieldKind::Struct) | Some(FieldKind::Ptr) | Some(FieldKind::Slice) => Err(
                field_prefix(cmd, f) + "slice of "@ + opt_kind_debug(f.elem_kind)
                    + " is not supported by the CLI frontend yet"@,
            ),
            _ => Ok((FlagKind::Slice, true)),
        },
        FieldKind::Struct => Err(
            field_prefix(cmd, f) + "nested struct is not supported by the CLI frontend yet"@,
        ),
        FieldKind::Union => Ok((FlagKind::Str, false)),
        FieldKind::Ptr => if f.elem_kind == Some(FieldKind::Struct) {
            Err(field_prefix(cmd, f) + "pointer to struct is not supported by the CLI frontend yet"@)
        } else {
            Ok((FlagKind::Str, true))
        },
        _ => Ok((FlagKind::Str, true)),
    }
}

fn field_error(cmd: &str, f: &FieldMeta, tail: &str) -> (e: errors::Error)
    ensures
        e.kind_spec() == errors::Kind::Internal && e.class_spec() == errors::Kind::Internal,
        e.text_spec() == field_prefix(cmd@, f@) + tail@,
{
    let mut m = text::owned("cli: command ");
    let q = text::quote(cmd);
    text::append(&mut m, q.as_str());
    text::append(&mut m, ": field ");
    let q = text::quote(f.json_name.as_str());
    text::append(&mut m, q.as_str());
    text::append(&mut m, ": ");
    text::append(&mut m, tail);
    proof {
        reveal_strlit("cli: command ");
    }
    errors::new(errors::Kind::Internal, m)
}

/// How a field becomes a flag.
pub fn flag_kind_for(f: &FieldMeta, cmd: &str) -> (r: Result<(FlagKind, bool), errors::Error>)
    ensures
        match r {
            Ok(k) => flag_kind_spec(f@, cmd@) == Ok::<(FlagKind, bool), Seq<char>>(k),
            Err(e) => flag_kind_spec(f@, cmd@) is Err && e.kind_spec() == errors::Kind::Internal && e.class_spec() == errors::Kind::Internal
                && e.text_spec() == flag_kind_spec(f@, cmd@)->Err_0,
        },
{
    let ek: Option<FieldKind> = match &f.elem {
        Some(e) => Some(e.kind),
        None => None,
    };
    match f.kind {
        FieldKind::Bool => Ok((FlagKind::Bool, true)),
        FieldKind::Slice => {
            if ek == Some(FieldKind::Struct) || ek == Some(FieldKind::Ptr) || ek == Some(
                FieldKind::Slice,
            ) {
                let mut tail = text::owned("slice of ");
                match ek {
                    Some(k) => {
                        text::append(&mut tail, "Some(");
                        text::append(&mut tail, k.debug_name());
                        text::append(&mut tail, ")");
                    },
                    None => {
                        text::append(&mut tail, "None");
                    },
                }
                text::append(&mut tail, " is not supported by the CLI frontend yet");
                return Err(field_error(cmd, f, tail.as_str()));
            }
            Ok((FlagKind::Slice, true))
        },
        FieldKind::Struct => Err(
            field_error(cmd, f, "nested struct is not supported by the CLI frontend yet"),
        ),
        FieldKind::Union => Ok((FlagKind::Str, false)),
        FieldKind::Ptr => {
            if ek == Some(FieldKind::Struct) {
                return Err(
                    field_error(cmd, f, "pointer to struct is not supported by the CLI frontend yet"),
                );
            }
            Ok((FlagKind::Str, true))
        },
        _ => Ok((FlagKind::Str, true)),
    }
}

/// The scan of a command's fields into a leaf.
pub struct LeafScan {
    pub defs: Seq<FlagDefView>,
    /// The field of each flag.
    pub def_fields: Seq<int>,
    /// Skipped fields that an env variable injects.
    pub env_only: Seq<int>,
    /// Positional fields, in order.
    pub pos_f: Seq<int>,
    /// Shorthands taken so far, with the field that took each.
    pub seen: Seq<(char, Seq<char>)>,
}

/// The field that took shorthand `c` first.
pub open spec fn taken_by(seen: Seq<(char, Seq<char>)>, c: char) -> Option<Seq<char>>
    decreases seen.len(),
{
    if seen.len() == 0 {
        None
    } else if seen[0].0 == c {
        Some(seen[0].1)
    } else {
        taken_by(seen.drop_first(), c)
    }
}

/// The message of a shorthand taken twice.
pub open spec fn shorthand_message(cmd: Seq<char>, c: char, f: Seq<char>, prev: Seq<char>) -> Seq<char> {
    "cli: command "@ + text::quoted(cmd) + ": shorthand "@ + text::quoted_char(c) + " of field "@
        + text::quoted(f) + " already used by "@ + text::quoted(prev)
}

/// What field `idx` adds to the leaf: nothing when the CLI skips it; an
/// env injection point when it is skipped but has an env variable; a
/// positional argument; otherwise a flag (named by its wire name, with
/// its shorthand, which must not be taken).
pub open spec fn leaf_field(f: FieldView, idx: int, cmd: Seq<char>, st: LeafScan) -> Result<LeafScan, Seq<char>> {
    if f.cli.skip {
        Ok(st)
    } else if f.skip {
        if f.cli.env_var is Some {
            Ok(LeafScan { env_only: st.env_only.push(idx), ..st })
        } else {
            Ok(st)
        }
    } else if f.cli.positional {
        Ok(LeafScan { pos_f: st.pos_f.push(idx), ..st })
    } else {
        match flag_kind_spec(f, cmd) {
            Err(m) => Err(m),
            Ok((kind, ok)) => if !ok {
                Ok(st)
            } else {
                let def = FlagDefView { long: f.json_name, short: f.cli.shorthand, kind };
                match f.cli.shorthand {
                    Some(c) => match taken_by(st.seen, c) {
                        Some(prev) => Err(shorthand_message(cmd, c, f.json_name, prev)),
                        None => Ok(
                            LeafScan {
                                defs: st.defs.push(def),
                                def_fields: st.def_fields.push(idx),
                                seen: st.seen.push((c, f.json_name)),
                                ..st
                            },
                        ),
                    },
                    None => Ok(
                        LeafScan {
                            defs: st.defs.push(def),
                            def_fields: st.def_fields.push(idx),
                            ..st
                        },
                    ),
                }
            },
        }
    }
}

/// The scan of the first `n` fields.
pub open spec fn leaf_scan(fs: Seq<FieldView>, cmd: Seq<char>, n: int) -> Result<LeafScan, Seq<char>>
    decreases n,
{
    if n <= 0 {
        Ok(
            LeafScan {
                defs: Seq::empty(),
                def_fields: Seq::empty(),
                env_only: Seq::empty(),
                pos_f: Seq::empty(),
                seen: Seq::empty(),
            },
        )
    } else {
        match leaf_scan(fs, cmd, n - 1) {
            Err(m) => Err(m),
            Ok(st) => leaf_field(fs[n - 1], n - 1, cmd, st),
        }
    }
}

/// The positional check over the first `k` positional fields: required
/// ones form a prefix; the result is the count of that prefix and whether
/// no optional one was seen.
pub open spec fn pos_scan(fs: Seq<FieldView>, pos: Seq<int>, cmd: Seq<char>, k: int) -> Result<(nat, bool), Seq<char>>
    decreases k,
{
    if k <= 0 {
        Ok((0, true))
    } else {
        match pos_scan(fs, pos, cmd, k - 1) {
            Err(m) => Err(m),
            Ok((min_pos, all_required)) => {
                let f = fs[pos[k - 1]];
                if f.required && !all_required {
                    Err("cli: command "@ + text::quoted(cmd) + ": required positional "@
                        + text::quoted(f.json_name) + " must not follow optional ones"@)
                } else if f.required {
                    Ok((k as nat, all_required))
                } else {
                    Ok((min_pos, false))
                }
            },
        }
    }
}

/// A definition error stays the scan's result.
proof fn lemma_leaf_scan_err(fs: Seq<FieldView>, cmd: Seq<char>, n: int)
    requires
        0 <= n <= fs.len(),
        leaf_scan(fs, cmd, n) is Err,
    ensures
        leaf_scan(fs, cmd, fs.len() as int) == leaf_scan(fs, cmd, n),
    decreases fs.len() - n,
{
    if n < fs.len() {
        lemma_leaf_scan_err(fs, cmd, n + 1);
    }
}

/// A positional error stays the check's result.
proof fn lemma_pos_scan_err(fs: Seq<FieldView>, pos: Seq<int>, cmd: Seq<char>, k: int)
    requires
        0 <= k <= pos.len(),
        pos_scan(fs, pos, cmd, k) is Err,
    ensures
        pos_scan(fs, pos, cmd, pos.len() as int) == pos_scan(fs, pos, cmd, k),
    decreases pos.len() - k,
{
    if k < pos.len() {
        lemma_pos_scan_err(fs, pos, cmd, k + 1);
    }
}

/// A leaf command's flags and positional constraints.
#[derive(Debug)]
pub struct Leaf {
    pub defs: Vec<FlagDef>,
    /// The field of each flag.
    pub def_fields: Vec<usize>,
    pub env_only: Vec<usize>,
    pub pos_f: Vec<usize>,
    pub min_pos: usize,
    pub max_pos: usize,
}

/// A leaf as plain values.
pub struct LeafView {
    pub defs: Seq<FlagDefView>,
    pub def_fields: Seq<int>,
    pub env_only: Seq<int>,
    pub pos_f: Seq<int>,
    pub min_pos: nat,
    pub max_pos: nat,
}

impl View for Leaf {
    type V = LeafView;

    open spec fn view(&self) -> LeafView {
        LeafView {
            defs: crate::cli::parse::def_views(self.defs@),
            def_fields: ints(self.def_fields@),
            env_only: ints(self.env_only@),
            pos_f: ints(self.pos_f@),
            min_pos: self.min_pos as nat,
            max_pos: self.max_pos as nat,
        }
    }
}

/// The leaf a scan and positional count describe.
pub open spec fn leaf_from(st: LeafScan, min_pos: nat) -> LeafView {
    LeafView {
        defs: st.defs,
        def_fields: st.def_fields,
        env_only: st.env_only,
        pos_f: st.pos_f,
        min_pos,
        max_pos: st.pos_f.len(),
    }
}

/// The leaf a command's fields give, or the first definition error.
pub open spec fn leaf_spec(fs: Seq<FieldView>, cmd: Seq<char>) -> Result<(LeafScan, nat), Seq<char>> {
    match leaf_scan(fs, cmd, fs.len() as int) {
        Err(m) => Err(m),
        Ok(st) => match pos_scan(fs, st.pos_f, cmd, st.pos_f.len() as int) {
            Err(m) => Err(m),
            Ok((min_pos, _)) => Ok((st, min_pos)),
        },
    }
}

/// The indices of a list as integers.
pub open spec fn ints(v: Seq<usize>) -> Seq<int> {
    v.map_values(|x: usize| x as int)
}

/// The field that took shorthand `c`, if any.
fn find_taken(seen: &Vec<(char, String)>, c: char) -> (r: Option<usize>)
    ensures
        match r {
            Some(k) => k < seen@.len() && taken_by(seen@.map_values(|x: (char, String)| (x.0, x.1@)), c)
                == Some(seen@[k as int].1@),
            None => taken_by(seen@.map_values(|x: (char, String)| (x.0, x.1@)), c) is None,
        },
{
    let ghost sv = seen@.map_values(|x: (char, String)| (x.0, x.1@));
    let mut i: usize = 0;
    assert(sv.skip(0) == sv);
    while i < seen.len()
        invariant
            i <= seen.len(),
            sv == seen@.map_values(|x: (char, String)| (x.0, x.1@)),
            taken_by(sv, c) == taken_by(sv.skip(i as int), c),
        decreases seen.len() - i,
    {
        proof {
            assert(sv.skip(i as int)[0] == (seen@[i as int].0, seen@[i as int].1@));
            assert(sv.skip(i as int).drop_first() == sv.skip(i + 1));
        }
        if seen[i].0 == c {
            return Some(i);
        }
        i += 1;
    }
    None
}

/// Builds a command's leaf from its fields: the flags, the env-only
/// injection points and the positional constraints (required positional
/// arguments must come first).
#[verifier::rlimit(40)]
pub fn leaf_of(fields: &Vec<FieldMeta>, cmd: &str) -> (r: Result<Leaf, errors::Error>)
    ensures
        match r {
            Ok(l) => leaf_spec(field::field_views(fields@), cmd@) matches Ok((st, min_pos)) && l@
                == leaf_from(st, min_pos),
            Err(e) => leaf_spec(field::field_views(fields@), cmd@) is Err && e.kind_spec() == errors::Kind::Internal && e.class_spec() == errors::Kind::Internal && e.text_spec() == leaf_spec(
                field::field_views(fields@),
                cmd@,
            )->Err_0,
        },
{
    let ghost fs = field::field_views(fields@);
    let mut defs: Vec<FlagDef> = Vec::new();
    let mut def_fields: Vec<usize> = Vec::new();
    let mut env_only: Vec<usize> = Vec::new();
    let mut pos_f: Vec<usize> = Vec::new();
    let mut seen: Vec<(char, String)> = Vec::new();
    let mut i: usize = 0;
    proof {
        assert(crate::cli::parse::def_views(defs@) =~= Seq::<FlagDefView>::empty());
        assert(ints(def_fields@) =~= Seq::<int>::empty());
        assert(ints(env_only@) =~= Seq::<int>::empty());
        assert(ints(pos_f@) =~= Seq::<int>::empty());
        assert(seen@.map_values(|x: (char, String)| (x.0, x.1@)) =~= Seq::<(char, Seq<char>)>::empty());
    }
    while i < fields.len()
        invariant
            i <= fields.len(),
            fs == field::field_views(fields@),
            leaf_scan(fs, cmd@, i as int) matches Ok(st) && st.defs == crate::cli::parse::def_views(
                defs@,
            ) && st.def_fields == ints(def_fields@) && st.env_only == ints(env_only@) && st.pos_f
                == ints(pos_f@) && st.seen == seen@.map_values(|x: (char, String)| (x.0, x.1@)),
            pos_f@.len() <= i,
            forall|k: int| 0 <= k < pos_f@.len() ==> pos_f@[k] < i,
        decreases fields.len() - i,
    {
        let f = &fields[i];
        assert(fs[i as int] == f@);
        let ghost g_defs = crate::cli::parse::def_views(defs@);
        let ghost g_df = ints(def_fields@);
        let ghost g_env = ints(env_only@);
        let ghost g_pos = ints(pos_f@);
        let ghost g_seen = seen@.map_values(|x: (char, String)| (x.0, x.1@));
        if f.cli.skip {
        } else if f.skip {
            if f.cli.env_var.is_some() {
                env_only.push(i);
                assert(ints(env_only@) =~= g_env.push(i as int));
            }
        } else if f.cli.positional {
            pos_f.push(i);
            assert(ints(pos_f@) =~= g_pos.push(i as int));
        } else {
            let (kind, ok) = match flag_kind_for(f, cmd) {
                Ok(t) => t,
                Err(e) => {
                    proof {
                        lemma_leaf_scan_err(fs, cmd@, i + 1);
                    }
                    return Err(e);
                },
            };
            if ok {
                match f.cli.shorthand {
                    Some(c) => {
                        match find_taken(&seen, c) {
                            Some(k) => {
                                let mut m = text::owned("cli: command ");
                                let q = text::quote(cmd);
                                text::append(&mut m, q.as_str());
                                text::append(&mut m, ": shorthand ");
                                let q = text::quote_char(c);
                                text::append(&mut m, q.as_str());
                                text::append(&mut m, " of field ");
                                let q = text::quote(f.json_name.as_str());
                                text::append(&mut m, q.as_str());
                                text::append(&mut m, " already used by ");
                                let q = text::quote(seen[k].1.as_str());
                                text::append(&mut m, q.as_str());
                                proof {
                                    reveal_strlit("cli: command ");
                                    lemma_leaf_scan_err(fs, cmd@, i + 1);
                                }
                                return Err(errors::new(errors::Kind::Internal, m));
                            },
                            None => {},
                        }
                        seen.push((c, f.json_name.clone()));
                        assert(seen@.map_values(|x: (char, String)| (x.0, x.1@)) =~= g_seen.push(
                            (c, f.json_name@),
                        ));
                    },
                    None => {},
                }
                let d = FlagDef { long: f.json_name.clone(), short: f.cli.shorthand, kind };
                defs.push(d);
                def_fields.push(i);
                assert(crate::cli::parse::def_views(defs@) =~= g_defs.push(
                    FlagDefView { long: f.json_name@, short: f.cli.shorthand, kind },
                ));
                assert(ints(def_fields@) =~= g_df.push(i as int));
            }
        }
        i += 1;
    }
    let ghost st = leaf_scan(fs, cmd@, fields.len() as int)->Ok_0;
    let mut min_pos: usize = 0;
    let mut all_required = true;
    let mut k: usize = 0;
    while k < pos_f.len()
        invariant
            k <= pos_f.len(),
            fs == field::field_views(fields@),
            leaf_scan(fs, cmd@, fields.len() as int) == Ok::<LeafScan, Seq<char>>(st),
            st.pos_f == ints(pos_f@),
            forall|j: int| 0 <= j < pos_f@.len() ==> pos_f@[j] < fields.len(),
            pos_scan(fs, st.pos_f, cmd@, k as int) == Ok::<(nat, bool), Seq<char>>(
                (min_pos as nat, all_required),
            ),
            min_pos <= k,
        decreases pos_f.len() - k,
    {
        let f = &fields[pos_f[k]];
        assert(fs[st.pos_f[k as int]] == f@);
        if f.required && !all_required {
            let mut m = text::owned("cli: command ");
            let q = text::quote(cmd);
            text::append(&mut m, q.as_str());
            text::append(&mut m, ": required positional ");
            let q = text::quote(f.json_name.as_str());
            text::append(&mut m, q.as_str());
            text::append(&mut m, " must not follow optional ones");
            proof {
                reveal_strlit("cli: command ");
                lemma_pos_scan_err(fs, st.pos_f, cmd@, k + 1);
            }
            return Err(errors::new(errors::Kind::Internal, m));
        }
        if f.required {
            min_pos = k + 1;
        } else {
            all_required = false;
        }
        k += 1;
    }
    let n = pos_f.len();
    Ok(Leaf { defs, def_fields, env_only, pos_f, min_pos, max_pos: n })
}

// ------------------------------------------------------------ the tree
/// A node of the command tree: a group of subcommands, a leaf command,
/// or both.  Nodes live in the tree's arena; children are arena indices
/// in segment order.
#[derive(Debug)]
pub struct CmdNode {
    /// The full dotted path (leaves only).
    pub path: String,
    /// This node's segment.
    pub segment: String,
    pub usage: String,
    pub short: String,
    pub long: String,
    pub aliases: Vec<String>,
    pub hidden: bool,
    /// The command this leaf runs (an index into the entries).
    pub entry: Option<usize>,
    pub leaf: Option<Leaf>,
    pub children: Vec<usize>,
    /// The segment of the default subcommand among the children.
    pub default_segment: Option<String>,
}

/// A node as plain values.
pub struct NodeView {
    pub path: Seq<char>,
    pub segment: Seq<char>,
    pub usage: Seq<char>,
    pub short: Seq<char>,
    pub long: Seq<char>,
    pub aliases: Seq<Seq<char>>,
    pub hidden: bool,
    pub entry: Option<int>,
    pub leaf: Option<LeafView>,
    pub children: Seq<int>,
    pub default_segment: Option<Seq<char>>,
}

impl View for CmdNode {
    type V = NodeView;

    open spec fn view(&self) -> NodeView {
        NodeView {
            path: self.path@,
            segment: self.segment@,
            usage: self.usage@,
            short: self.short@,
            long: self.long@,
            aliases: text::views(self.aliases@),
            hidden: self.hidden,
            entry: match self.entry {
                Some(e) => Some(e as int),
                None => None,
            },
            leaf: match self.leaf {
                Some(l) => Some(l@),
                None => None,
            },
            children: ints(self.children@),
            default_segment: match self.default_segment {
                Some(d) => Some(d@),
                None => None,
            },
        }
    }
}

/// The views of the arena.
pub open spec fn node_views(v: Seq<CmdNode>) -> Seq<NodeView> {
    v.map_values(|n: CmdNode| n@)
}

/// A fresh node for a segment.
pub open spec fn new_node(seg: Seq<char>) -> NodeView {
    NodeView {
        path: Seq::empty(),
        segment: seg,
        usage: Seq::empty(),
        short: Seq::empty(),
        long: Seq::empty(),
        aliases: Seq::empty(),
        hidden: false,
        entry: None,
        leaf: None,
        children: Seq::empty(),
        default_segment: None,
    }
}

/// The first child of node `n` (among `cs`) with segment `seg`.
pub open spec fn child_in(t: Seq<NodeView>, cs: Seq<int>, seg: Seq<char>) -> Option<int>
    decreases cs.len(),
{
    if cs.len() == 0 {
        None
    } else if 0 <= cs[0] < t.len() && t[cs[0]].segment == seg {
        Some(cs[0])
    } else {
        child_in(t, cs.drop_first(), seg)
    }
}

/// How many of the children come before `seg` in segment order.
pub open spec fn rank_in(t: Seq<NodeView>, cs: Seq<int>, seg: Seq<char>) -> int
    decreases cs.len(),
{
    if cs.len() == 0 {
        0
    } else {
        rank_in(t, cs.drop_last(), seg) + if 0 <= cs.last() < t.len() && text::lex_lt(
            t[cs.last()].segment,
            seg,
        ) {
            1int
        } else {
            0int
        }
    }
}

/// The tree with a new child `seg` under node `n` (placed in segment
/// order), and the new child's index.
pub open spec fn with_child(t: Seq<NodeView>, n: int, seg: Seq<char>) -> (Seq<NodeView>, int) {
    let c = t.len() as int;
    let pos = rank_in(t, t[n].children, seg);
    (
        t.push(new_node(seg)).update(
            n,
            NodeView { children: t[n].children.insert(pos, c), ..t[n] },
        ),
        c,
    )
}

/// Descends from node `n` along `parts[k..]` but the last part, creating
/// the group nodes that are missing.
pub open spec fn descend(t: Seq<NodeView>, n: int, parts: Seq<Seq<char>>, k: int) -> (Seq<NodeView>, int)
    decreases parts.len() - k,
{
    if k >= parts.len() - 1 || k < 0 {
        (t, n)
    } else {
        match child_in(t, t[n].children, parts[k]) {
            Some(c) => descend(t, c, parts, k + 1),
            None => {
                let (t2, c) = with_child(t, n, parts[k]);
                descend(t2, c, parts, k + 1)
            },
        }
    }
}

/// What the tree reads of an entry.
pub struct EntryView {
    pub name: Seq<char>,
    pub summary: Seq<char>,
    pub description: Seq<char>,
    pub usage: Seq<char>,
    pub aliases: Seq<Seq<char>>,
    pub hidden: bool,
    pub default: bool,
    pub skip: bool,
    pub fields: Seq<FieldView>,
}

impl View for CliEntry {
    type V = EntryView;

    open spec fn view(&self) -> EntryView {
        EntryView {
            name: self.name@,
            summary: self.summary@,
            description: self.description@,
            usage: self.cli.usage@,
            aliases: text::views(self.cli.aliases@),
            hidden: self.cli.hidden,
            default: self.cli.default,
            skip: self.cli.skip,
            fields: field::field_views(self.fields@),
        }
    }
}

/// A node made the leaf of an entry.
pub open spec fn filled(nd: NodeView, e: EntryView, idx: int, leaf: LeafView) -> NodeView {
    NodeView {
        path: e.name,
        usage: e.usage,
        short: e.summary,
        long: e.description,
        aliases: e.aliases,
        hidden: e.hidden,
        entry: Some(idx),
        leaf: Some(leaf),
        ..nd
    }
}

/// The first alias of the entry that is the segment of a child of `n`
/// other than `skip`.
pub open spec fn alias_clash(t: Seq<NodeView>, cs: Seq<int>, aliases: Seq<Seq<char>>, skip: int) -> Option<Seq<char>>
    decreases aliases.len(),
{
    if aliases.len() == 0 {
        None
    } else if exists|j: int|
        0 <= j < cs.len() && cs[j] != skip && 0 <= cs[j] < t.len() && #[trigger] t[cs[j]].segment
            == aliases[0] {
        Some(aliases[0])
    } else {
        alias_clash(t, cs, aliases.drop_first(), skip)
    }
}

/// Registers a default subcommand with its parent: one per parent.
pub open spec fn with_default(t: Seq<NodeView>, n: int, part: Seq<char>, e: EntryView) -> Result<Seq<NodeView>, Seq<char>> {
    if !e.default {
        Ok(t)
    } else {
        match t[n].default_segment {
            Some(prev) => if prev != part {
                Err("cli: command "@ + text::quoted(e.name) + ": default conflicts with existing default "@
                    + text::quoted(prev))
            } else {
                Ok(t)
            },
            None => Ok(t.update(n, NodeView { default_segment: Some(part), ..t[n] })),
        }
    }
}

/// The message of an alias that clashes with a command path.
pub open spec fn alias_message(name: Seq<char>, a: Seq<char>) -> Seq<char> {
    "cli: command "@ + text::quoted(name) + ": alias "@ + text::quoted(a)
        + " collides with an existing command path"@
}

/// Places entry `idx` as the child `part` of node `n`: an existing
/// child that is a leaf or has children is a conflict; an alias must not
/// be another child's segment; then the leaf is filled in and the
/// default registered.
pub open spec fn place_leaf(t: Seq<NodeView>, n: int, part: Seq<char>, e: EntryView, idx: int) -> Result<Seq<NodeView>, Seq<char>> {
    let leaf = leaf_spec(e.fields, e.name);
    match child_in(t, t[n].children, part) {
        Some(c) => if t[c].entry is Some || t[c].children.len() > 0 {
            Err("cli: command "@ + text::quoted(e.name) + " conflicts with an existing command path"@)
        } else {
            match alias_clash(t, t[n].children, e.aliases, c) {
                Some(a) => Err(alias_message(e.name, a)),
                None => match leaf {
                    Err(m) => Err(m),
                    Ok((st, mp)) => with_default(
                        t.update(c, filled(t[c], e, idx, leaf_from(st, mp))),
                        n,
                        part,
                        e,
                    ),
                },
            }
        },
        None => match alias_clash(t, t[n].children, e.aliases, -1) {
            Some(a) => Err(alias_message(e.name, a)),
            None => match leaf {
                Err(m) => Err(m),
                Ok((st, mp)) => {
                    let (t2, c) = with_child(t, n, part);
                    with_default(t2.update(c, filled(t2[c], e, idx, leaf_from(st, mp))), n, part, e)
                },
            },
        },
    }
}

/// Adds entry `idx` to the tree (entries the CLI skips add nothing).
pub open spec fn add_entry(t: Seq<NodeView>, e: EntryView, idx: int) -> Result<Seq<NodeView>, Seq<char>> {
    if e.skip {
        Ok(t)
    } else {
        let parts = text::split(e.name, '.');
        let (t2, n) = descend(t, 0, parts, 0);
        place_leaf(t2, n, parts.last(), e, idx)
    }
}

/// The tree of the first `k` entries.
pub open spec fn tree_upto(es: Seq<EntryView>, k: int) -> Result<Seq<NodeView>, Seq<char>>
    decreases k,
{
    if k <= 0 {
        Ok(seq![new_node(Seq::empty())])
    } else {
        match tree_upto(es, k - 1) {
            Err(m) => Err(m),
            Ok(t) => add_entry(t, es[k - 1], k - 1),
        }
    }
}

/// The command tree of the entries (in registry order), or the first
/// conflict: paths that overlap, aliases that clash, bad fields, or two
/// defaults under one parent.
pub open spec fn tree_spec(es: Seq<EntryView>) -> Result<Seq<NodeView>, Seq<char>> {
    tree_upto(es, es.len() as int)
}

/// The command tree: node 0 is the root.
#[derive(Debug)]
pub struct CmdTree {
    pub nodes: Vec<CmdNode>,
}

/// Whether every child index of every node is a node.
pub open spec fn well_linked(t: Seq<NodeView>) -> bool {
    &&& t.len() > 0
    &&& forall|i: int, j: int|
        0 <= i < t.len() && 0 <= j < t[i].children.len() ==> 0 <= #[trigger] t[i].children[j] < t.len()
}

fn empty_node(seg: String) -> (n: CmdNode)
    ensures
        n@ == new_node(seg@),
{
    let n = CmdNode {
        path: String::new(),
        segment: seg,
        usage: String::new(),
        short: String::new(),
        long: String::new(),
        aliases: Vec::new(),
        hidden: false,
        entry: None,
        leaf: None,
        children: Vec::new(),
        default_segment: None,
    };
    assert(n@.aliases =~= Seq::<Seq<char>>::empty());
    assert(n@.children =~= Seq::<int>::empty());
    n
}

fn find_child(nodes: &Vec<CmdNode>, n: usize, seg: &str) -> (r: Option<usize>)
    requires
        n < nodes.len(),
        well_linked(node_views(nodes@)),
    ensures
        match r {
            Some(c) => child_in(node_views(nodes@), node_views(nodes@)[n as int].children, seg@)
                == Some(c as int) && c < nodes.len(),
            None => child_in(node_views(nodes@), node_views(nodes@)[n as int].children, seg@) is None,
        },
{
    let ghost t = node_views(nodes@);
    let ghost cs = t[n as int].children;
    let mut i: usize = 0;
    assert(cs.skip(0) == cs);
    while i < nodes[n].children.len()
        invariant
            n < nodes.len(),
            t == node_views(nodes@),
            cs == t[n as int].children,
            well_linked(t),
            i <= cs.len(),
            cs.len() == nodes@[n as int].children@.len(),
            child_in(t, cs, seg@) == child_in(t, cs.skip(i as int), seg@),
        decreases cs.len() - i,
    {
        let c = nodes[n].children[i];
        proof {
            assert(cs[i as int] == c as int);
            assert(cs.skip(i as int)[0] == cs[i as int]);
            assert(cs.skip(i as int).drop_first() == cs.skip(i + 1));
            assert(0 <= cs[i as int] < t.len());
        }
        assert(t[c as int].segment == nodes@[c as int].segment@);
        if text::str_eq(nodes[c].segment.as_str(), seg) {
            return Some(c);
        }
        i += 1;
    }
    None
}

fn child_rank(nodes: &Vec<CmdNode>, n: usize, seg: &str) -> (r: usize)
    requires
        n < nodes.len(),
        well_linked(node_views(nodes@)),
    ensures
        r as int == rank_in(node_views(nodes@), node_views(nodes@)[n as int].children, seg@),
        r <= nodes@[n as int].children@.len(),
{
    let ghost t = node_views(nodes@);
    let ghost cs = t[n as int].children;
    let mut i: usize = 0;
    let mut r: usize = 0;
    assert(cs.take(0) == Seq::<int>::empty());
    while i < nodes[n].children.len()
        invariant
            n < nodes.len(),
            t == node_views(nodes@),
            cs == t[n as int].children,
            well_linked(t),
            i <= cs.len(),
            cs.len() == nodes@[n as int].children@.len(),
            r as int == rank_in(t, cs.take(i as int), seg@),
            r <= i,
        decreases cs.len() - i,
    {
        let c = nodes[n].children[i];
        proof {
            assert(cs[i as int] == c as int);
            assert(cs.take(i + 1).drop_last() == cs.take(i as int));
            assert(cs.take(i + 1).last() == cs[i as int]);
        }
        assert(t[c as int].segment == nodes@[c as int].segment@);
        if text::str_lt(nodes[c].segment.as_str(), seg) {
            r += 1;
        }
        i += 1;
    }
    assert(cs.take(i as int) == cs);
    r
}

/// Adds child `seg` under node `n`.
fn add_child(nodes: &mut Vec<CmdNode>, n: usize, seg: &str) -> (c: usize)
    requires
        n < old(nodes).len(),
        well_linked(node_views(old(nodes)@)),
        old(nodes).len() < usize::MAX,
    ensures
        (node_views(final(nodes)@), c as int) == with_child(node_views(old(nodes)@), n as int, seg@),
        well_linked(node_views(final(nodes)@)),
        c < final(nodes).len(),
        final(nodes).len() == old(nodes).len() + 1,
{
    let ghost t = node_views(nodes@);
    let pos = child_rank(nodes, n, seg);
    let c = nodes.len();
    nodes.push(empty_node(text::owned(seg)));
    assert(node_views(nodes@) =~= t.push(new_node(seg@)));
    let mut nd = nodes.remove(n);
    nd.children.insert(pos, c);
    nodes.insert(n, nd);
    proof {
        let t2 = t.push(new_node(seg@));
        assert(node_views(nodes@) =~= t2.update(
            n as int,
            NodeView { children: t[n as int].children.insert(pos as int, c as int), ..t[n as int] },
        )) by {
            assert(ints(nd.children@) =~= t[n as int].children.insert(pos as int, c as int));
        }
        let t3 = node_views(nodes@);
        assert forall|i: int, j: int|
            0 <= i < t3.len() && 0 <= j < t3[i].children.len() implies 0 <= #[trigger] t3[i].children[j]
            < t3.len() by {
            if i == n {
                if j < pos {
                    assert(t3[i].children[j] == t[i].children[j]);
                } else if j > pos {
                    assert(t3[i].children[j] == t[i].children[j - 1]);
                }
            } else if i < t.len() {
                assert(t3[i] == t[i]);
            }
        }
    }
    c
}

/// Descends along all parts but the last, creating missing groups.
fn descend_exec(nodes: &mut Vec<CmdNode>, parts: &Vec<String>) -> (n: usize)
    requires
        well_linked(node_views(old(nodes)@)),
        parts.len() >= 1,
        old(nodes).len() + parts.len() < usize::MAX,
    ensures
        (node_views(final(nodes)@), n as int) == descend(node_views(old(nodes)@), 0, text::views(parts@), 0),
        well_linked(node_views(final(nodes)@)),
        n < final(nodes).len(),
        final(nodes).len() <= old(nodes).len() + parts.len(),
{
    let ghost ps = text::views(parts@);
    let ghost t0 = node_views(nodes@);
    let mut n: usize = 0;
    let mut k: usize = 0;
    while k + 1 < parts.len()
        invariant
            ps == text::views(parts@),
            parts.len() >= 1,
            k + 1 <= parts.len(),
            n < nodes.len(),
            well_linked(node_views(nodes@)),
            nodes.len() <= t0.len() + k,
            t0.len() + parts.len() < usize::MAX,
            descend(t0, 0, ps, 0) == descend(node_views(nodes@), n as int, ps, k as int),
        decreases parts.len() - k,
    {
        let part = parts[k].as_str();
        assert(ps[k as int] == part@);
        match find_child(nodes, n, part) {
            Some(c) => {
                n = c;
            },
            None => {
                let c = add_child(nodes, n, part);
                n = c;
            },
        }
        k += 1;
    }
    n
}

/// The first alias that is the segment of a child of `n` other than
/// `skip`.
fn find_alias_clash(nodes: &Vec<CmdNode>, n: usize, aliases: &Vec<String>, skip: usize) -> (r: Option<usize>)
    requires
        n < nodes.len(),
        well_linked(node_views(nodes@)),
    ensures
        match r {
            Some(a) => a < aliases.len() && alias_clash(
                node_views(nodes@),
                node_views(nodes@)[n as int].children,
                text::views(aliases@),
                skip as int,
            ) == Some(aliases@[a as int]@),
            None => alias_clash(
                node_views(nodes@),
                node_views(nodes@)[n as int].children,
                text::views(aliases@),
                skip as int,
            ) is None,
        },
{
    let ghost t = node_views(nodes@);
    let ghost cs = t[n as int].children;
    let ghost av = text::views(aliases@);
    let mut a: usize = 0;
    assert(av.skip(0) == av);
    while a < aliases.len()
        invariant
            n < nodes.len(),
            t == node_views(nodes@),
            cs == t[n as int].children,
            av == text::views(aliases@),
            well_linked(t),
            a <= aliases.len(),
            alias_clash(t, cs, av, skip as int) == alias_clash(t, cs, av.skip(a as int), skip as int),
        decreases aliases.len() - a,
    {
        let al = aliases[a].as_str();
        proof {
            assert(av.skip(a as int)[0] == al@);
            assert(av.skip(a as int).drop_first() == av.skip(a + 1));
        }
        let mut j: usize = 0;
        let mut hit = false;
        while j < nodes[n].children.len()
            invariant
                n < nodes.len(),
                t == node_views(nodes@),
                cs == t[n as int].children,
                well_linked(t),
                j <= cs.len(),
                cs.len() == nodes@[n as int].children@.len(),
                hit == exists|jj: int|
                    0 <= jj < j && cs[jj] != skip && 0 <= cs[jj] < t.len() && #[trigger] t[cs[jj]].segment
                        == al@,
            decreases cs.len() - j,
        {
            let c = nodes[n].children[j];
            assert(cs[j as int] == c as int);
            assert(0 <= cs[j as int] < t.len());
            assert(t[c as int].segment == nodes@[c as int].segment@);
            if c != skip && text::str_eq(nodes[c].segment.as_str(), al) {
                hit = true;
            }
            j += 1;
        }
        if hit {
            return Some(a);
        }
        a += 1;
    }
    None
}

/// Makes node `c` the leaf of entry `idx`.
fn fill_node(nodes: &mut Vec<CmdNode>, c: usize, e: &CliEntry, idx: usize, leaf: Leaf)
    requires
        c < old(nodes).len(),
        well_linked(node_views(old(nodes)@)),
    ensures
        node_views(final(nodes)@) == node_views(old(nodes)@).update(
            c as int,
            filled(node_views(old(nodes)@)[c as int], e@, idx as int, leaf@),
        ),
        well_linked(node_views(final(nodes)@)),
        final(nodes).len() == old(nodes).len(),
{
    let ghost t = node_views(nodes@);
    let ghost lv = leaf@;
    let old_n = nodes.remove(c);
    let nd = CmdNode {
        path: e.name.clone(),
        segment: old_n.segment,
        usage: e.cli.usage.clone(),
        short: e.summary.clone(),
        long: e.description.clone(),
        aliases: text::clone_strings(&e.cli.aliases),
        hidden: e.cli.hidden,
        entry: Some(idx),
        leaf: Some(leaf),
        children: old_n.children,
        default_segment: old_n.default_segment,
    };
    nodes.insert(c, nd);
    proof {
        assert(node_views(nodes@) =~= t.update(c as int, filled(t[c as int], e@, idx as int, lv)));
        let t3 = node_views(nodes@);
        assert forall|i: int, j: int|
            0 <= i < t3.len() && 0 <= j < t3[i].children.len() implies 0 <= #[trigger] t3[i].children[j]
            < t3.len() by {
            if i != c {
                assert(t3[i] == t[i]);
            } else {
                assert(t3[i].children == t[i].children);
            }
        }
    }
}

/// Registers the default subcommand `part` of node `n`.
fn set_default(nodes: &mut Vec<CmdNode>, n: usize, part: &str, e: &CliEntry) -> (r: Result<(), errors::Error>)
    requires
        n < old(nodes).len(),
        well_linked(node_views(old(nodes)@)),
    ensures
        match with_default(node_views(old(nodes)@), n as int, part@, e@) {
            Ok(t2) => r is Ok && node_views(final(nodes)@) == t2 && well_linked(t2),
            Err(m) => r matches Err(err) && err.text_spec() == m && err.kind_spec() == errors::Kind::Internal && err.class_spec() == errors::Kind::Internal,
        },
        final(nodes).len() == old(nodes).len(),
{
    let ghost t = node_views(nodes@);
    if !e.cli.default {
        return Ok(());
    }
    match &nodes[n].default_segment {
        Some(prev) => {
            if !text::str_eq(prev.as_str(), part) {
                let mut m = text::owned("cli: command ");
                let q = text::quote(e.name.as_str());
                text::append(&mut m, q.as_str());
                text::append(&mut m, ": default conflicts with existing default ");
                let q = text::quote(prev.as_str());
                text::append(&mut m, q.as_str());
                proof {
                    reveal_strlit("cli: command ");
                }
                return Err(errors::new(errors::Kind::Internal, m));
            }
            return Ok(());
        },
        None => {},
    }
    let old_n = nodes.remove(n);
    let nd = CmdNode {
        path: old_n.path,
        segment: old_n.segment,
        usage: old_n.usage,
        short: old_n.short,
        long: old_n.long,
        aliases: old_n.aliases,
        hidden: old_n.hidden,
        entry: old_n.entry,
        leaf: old_n.leaf,
        children: old_n.children,
        default_segment: Some(text::owned(part)),
    };
    nodes.insert(n, nd);
    proof {
        assert(node_views(nodes@) =~= t.update(
            n as int,
            NodeView { default_segment: Some(part@), ..t[n as int] },
        ));
        let t3 = node_views(nodes@);
        assert forall|i: int, j: int|
            0 <= i < t3.len() && 0 <= j < t3[i].children.len() implies 0 <= #[trigger] t3[i].children[j]
            < t3.len() by {
            if i != n {
                assert(t3[i] == t[i]);
            } else {
                assert(t3[i].children == t[i].children);
            }
        }
    }
    Ok(())
}

fn alias_error(name: &str, a: &str) -> (e: errors::Error)
    ensures
        e.kind_spec() == errors::Kind::Internal && e.class_spec() == errors::Kind::Internal,
        e.text_spec() == alias_message(name@, a@),
{
    let mut m = text::owned("cli: command ");
    let q = text::quote(name);
    text::append(&mut m, q.as_str());
    text::append(&mut m, ": alias ");
    let q = text::quote(a);
    text::append(&mut m, q.as_str());
    text::append(&mut m, " collides with an existing command path");
    proof {
        reveal_strlit("cli: command ");
    }
    errors::new(errors::Kind::Internal, m)
}

/// Places entry `idx` as child `part` of node `n`.
#[verifier::rlimit(40)]
fn place_leaf_exec(nodes: &mut Vec<CmdNode>, n: usize, part: &str, e: &CliEntry, idx: usize) -> (r: Result<(), errors::Error>)
    requires
        n < old(nodes).len(),
        well_linked(node_views(old(nodes)@)),
        old(nodes).len() + 1 < usize::MAX,
    ensures
        match place_leaf(node_views(old(nodes)@), n as int, part@, e@, idx as int) {
            Ok(t2) => r is Ok && node_views(final(nodes)@) == t2 && well_linked(t2),
            Err(m) => r matches Err(err) && err.text_spec() == m && err.kind_spec() == errors::Kind::Internal && err.class_spec() == errors::Kind::Internal,
        },
        final(nodes).len() <= old(nodes).len() + 1,
{
    let ghost t = node_views(nodes@);
    match find_child(nodes, n, part) {
        Some(c) => {
            if nodes[c].entry.is_some() || nodes[c].children.len() > 0 {
                let mut m = text::owned("cli: command ");
                let q = text::quote(e.name.as_str());
                text::append(&mut m, q.as_str());
                text::append(&mut m, " conflicts with an existing command path");
                proof {
                    reveal_strlit("cli: command ");
                }
                return Err(errors::new(errors::Kind::Internal, m));
            }
            match find_alias_clash(nodes, n, &e.cli.aliases, c) {
                Some(a) => {
                    return Err(alias_error(e.name.as_str(), e.cli.aliases[a].as_str()));
                },
                None => {},
            }
            let leaf = match leaf_of(&e.fields, e.name.as_str()) {
                Ok(l) => l,
                Err(err) => {
                    return Err(err);
                },
            };
            fill_node(nodes, c, e, idx, leaf);
            set_default(nodes, n, part, e)
        },
        None => {
            match find_alias_clash(nodes, n, &e.cli.aliases, usize::MAX) {
                Some(a) => {
                    proof {
                        assert(alias_clash(t, t[n as int].children, e@.aliases, usize::MAX as int)
                            == alias_clash(t, t[n as int].children, e@.aliases, -1)) by {
                            lemma_alias_clash_skip_absent(t, t[n as int].children, e@.aliases);
                        }
                    }
                    return Err(alias_error(e.name.as_str(), e.cli.aliases[a].as_str()));
                },
                None => {
                    proof {
                        lemma_alias_clash_skip_absent(t, t[n as int].children, e@.aliases);
                    }
                },
            }
            let leaf = match leaf_of(&e.fields, e.name.as_str()) {
                Ok(l) => l,
                Err(err) => {
                    return Err(err);
                },
            };
            let c = add_child(nodes, n, part);
            fill_node(nodes, c, e, idx, leaf);
            set_default(nodes, n, part, e)
        },
    }
}

/// Skipping no child and skipping an index that no child has agree.
proof fn lemma_alias_clash_skip_absent(t: Seq<NodeView>, cs: Seq<int>, aliases: Seq<Seq<char>>)
    requires
        forall|j: int| 0 <= j < cs.len() ==> 0 <= #[trigger] cs[j] < t.len(),
        t.len() < usize::MAX,
    ensures
        alias_clash(t, cs, aliases, usize::MAX as int) == alias_clash(t, cs, aliases, -1),
    decreases aliases.len(),
{
    if aliases.len() > 0 {
        lemma_alias_clash_skip_absent(t, cs, aliases.drop_first());
    }
}

/// Adds entry `idx` to the tree.
fn add_entry_exec(nodes: &mut Vec<CmdNode>, e: &CliEntry, idx: usize) -> (r: Result<(), errors::Error>)
    requires
        well_linked(node_views(old(nodes)@)),
        old(nodes).len() + text::split(e.name@, '.').len() + 2 < usize::MAX,
    ensures
        match add_entry(node_views(old(nodes)@), e@, idx as int) {
            Ok(t2) => r is Ok && node_views(final(nodes)@) == t2 && well_linked(t2),
            Err(m) => r matches Err(err) && err.text_spec() == m && err.kind_spec() == errors::Kind::Internal && err.class_spec() == errors::Kind::Internal,
        },
        final(nodes).len() <= old(nodes).len() + text::split(e.name@, '.').len() + 1,
{
    if e.cli.skip {
        return Ok(());
    }
    let cs = text::chars_of(e.name.as_str());
    let pieces = text::split_chars(cs.as_slice(), '.');
    let mut parts: Vec<String> = Vec::new();
    let mut k: usize = 0;
    let ghost sp = text::split(e.name@, '.');
    while k < pieces.len()
        invariant
            k <= pieces.len(),
            pieces@.len() == sp.len(),
            forall|j: int| 0 <= j < pieces@.len() ==> (#[trigger] pieces@[j])@ == sp[j],
            text::views(parts@) == sp.take(k as int),
        decreases pieces.len() - k,
    {
        let ghost before = text::views(parts@);
        parts.push(text::string_of(pieces[k].as_slice()));
        assert(text::views(parts@) == before.push(sp[k as int]));
        assert(sp.take(k + 1) == sp.take(k as int).push(sp[k as int]));
        k += 1;
    }
    assert(sp.take(pieces.len() as int) == sp);
    proof {
        text::lemma_split_len(e.name@, '.');
    }
    let n = descend_exec(nodes, &parts);
    let last = parts[parts.len() - 1].as_str();
    assert(sp.last() == last@);
    place_leaf_exec(nodes, n, last, e, idx)
}

/// The number of segments of the first `k` entries' names, each counted
/// with two more (an upper bound on the nodes those entries can add).
pub open spec fn segments_total(es: Seq<CliEntry>, k: int) -> nat
    decreases k,
{
    if k <= 0 || k > es.len() {
        0
    } else {
        segments_total(es, k - 1) + text::split(es[k - 1].name@, '.').len() + 2
    }
}

proof fn lemma_segments_grow(es: Seq<CliEntry>, k: int, n: int)
    requires
        0 <= k <= n <= es.len(),
    ensures
        segments_total(es, k) <= segments_total(es, n),
    decreases n - k,
{
    if k < n {
        lemma_segments_grow(es, k, n - 1);
    }
}

/// Builds the command tree of the entries (in registry order); any
/// overlap, alias clash, bad field or second default is an error.  The
/// nodes it may add must be countable in a `usize`.
pub fn build_tree(entries: &[CliEntry]) -> (r: Result<CmdTree, errors::Error>)
    requires
        segments_total(entries@, entries@.len() as int) + 1 < usize::MAX,
    ensures
        match tree_spec(entries@.map_values(|e: CliEntry| e@)) {
            Ok(t) => r matches Ok(tree) && node_views(tree.nodes@) == t && well_linked(t),
            Err(m) => r matches Err(err) && err.text_spec() == m && err.kind_spec() == errors::Kind::Internal && err.class_spec() == errors::Kind::Internal,
        },
{
    let ghost es = entries@.map_values(|e: CliEntry| e@);
    let mut nodes: Vec<CmdNode> = Vec::new();
    nodes.push(empty_node(String::new()));
    assert(node_views(nodes@) =~= seq![new_node(Seq::empty())]);
    let mut k: usize = 0;
    while k < entries.len()
        invariant
            k <= entries.len(),
            es == entries@.map_values(|e: CliEntry| e@),
            segments_total(entries@, entries@.len() as int) + 1 < usize::MAX,
            tree_upto(es, k as int) == Ok::<Seq<NodeView>, Seq<char>>(node_views(nodes@)),
            well_linked(node_views(nodes@)),
            nodes.len() <= 1 + segments_total(entries@, k as int),
        decreases entries.len() - k,
    {
        assert(es[k as int] == entries@[k as int]@);
        proof {
            lemma_segments_grow(entries@, k + 1, entries@.len() as int);
            assert(segments_total(entries@, k + 1) == segments_total(entries@, k as int) + text::split(
                entries@[k as int].name@,
                '.',
            ).len() + 2);
        }
        match add_entry_exec(&mut nodes, &entries[k], k) {
            Ok(()) => {},
            Err(err) => {
                proof {
                    lemma_tree_err(es, k as int + 1);
                }
                return Err(err);
            },
        }
        k += 1;
    }
    Ok(CmdTree { nodes })
}

/// A conflict stays the build's result.
proof fn lemma_tree_err(es: Seq<EntryView>, k: int)
    requires
        0 <= k <= es.len(),
        tree_upto(es, k) is Err,
    ensures
        tree_upto(es, es.len() as int) == tree_upto(es, k),
    decreases es.len() - k,
{
    if k < es.len() {
        lemma_tree_err(es, k + 1);
    }
}

} // verus!
