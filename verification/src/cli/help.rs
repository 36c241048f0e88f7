//! Help texts of the CLI frontend: a group lists its subcommands, a leaf
//! lists its flags and usage; defaults, env fallbacks and enums are woven
//! into the flag descriptions.
use vstd::prelude::*;
use crate::cli::parse::{FlagDef, FlagKind};
use crate::cli::tree::{self, CliEntry, CmdTree, NodeView};
use crate::field::{FieldKind, FieldMeta};
use crate::json::{self, Json, JsonView};
use crate::lang::{self, LangState};
use crate::overview;
use crate::text;

verus! {

/// A custom `-h` text block as printed: nothing when empty, otherwise the
/// text with its trailing newlines folded into one.
pub fn write_help_block(s: &str) -> (r: String)
    ensures
        r@ == overview::block_text(s@),
{
    overview::write_block(s)
}

/// How a value shows in help: a string as it is, anything else as JSON.
pub open spec fn display_spec(j: JsonView) -> Seq<char> {
    match j {
        JsonView::Str(s) => s,
        _ => json::json_compact(j),
    }
}

fn display_value(v: &Json) -> (r: String)
    ensures
        r@ == display_spec(v@),
{
    match v {
        Json::Str(s) => s.clone(),
        _ => json::compact_json(v),
    }
}

/// The enum values shown, joined with `|`.
pub open spec fn oneof_text(vs: Seq<Json>) -> Seq<char>
    decreases vs.len(),
{
    if vs.len() == 0 {
        Seq::empty()
    } else if vs.len() == 1 {
        display_spec(vs[0]@)
    } else {
        oneof_text(vs.drop_last()) + "|"@ + display_spec(vs.last()@)
    }
}

/// A flag's description: the field's own, then its default (the CLI one
/// first), its env variable and its enum values.
pub open spec fn description_spec(f: FieldMeta) -> Seq<char> {
    let d = default_part(f);
    let e = match f.cli.env_var {
        Some(v) => " (env "@ + v@ + ")"@,
        None => Seq::empty(),
    };
    let o = if f.enum_values@.len() > 0 {
        " (oneof "@ + oneof_text(f.enum_values@) + ")"@
    } else {
        Seq::empty()
    };
    f.description@ + d + e + o
}

/// The default part of a flag's description.
pub open spec fn default_part(f: FieldMeta) -> Seq<char> {
    match f.cli.default {
        Some(v) => " (default "@ + display_spec(v@) + ")"@,
        None => match f.default {
            Some(v) => " (default "@ + display_spec(v@) + ")"@,
            None => Seq::empty(),
        },
    }
}

fn push_default(out: &mut String, f: &FieldMeta)
    ensures
        final(out)@ == old(out)@ + default_part(*f),
{
    let v = match &f.cli.default {
        Some(v) => v,
        None => match &f.default {
            Some(v) => v,
            None => {
                return;
            },
        },
    };
    text::append(out, " (default ");
    let s = display_value(v);
    text::append(out, s.as_str());
    text::append(out, ")");
}

fn push_oneof(out: &mut String, vs: &Vec<Json>)
    ensures
        final(out)@ == old(out)@ + oneof_text(vs@),
{
    let ghost base = out@;
    let mut i: usize = 0;
    while i < vs.len()
        invariant
            i <= vs.len(),
            out@ == base + oneof_text(vs@.take(i as int)),
        decreases vs.len() - i,
    {
        proof {
            assert(vs@.take(i + 1).drop_last() == vs@.take(i as int));
            assert(vs@.take(i + 1).last() == vs@[i as int]);
        }
        if i > 0 {
            text::append(out, "|");
        }
        let s = display_value(&vs[i]);
        text::append(out, s.as_str());
        i += 1;
    }
    assert(vs@.take(vs.len() as int) == vs@);
}

/// A flag's description.
pub fn flag_description(f: &FieldMeta) -> (r: String)
    ensures
        r@ == description_spec(*f),
{
    let mut desc = f.description.clone();
    push_default(&mut desc, f);
    let ghost d1 = desc@;
    match &f.cli.env_var {
        Some(v) => {
            text::append(&mut desc, " (env ");
            text::append(&mut desc, v.as_str());
            text::append(&mut desc, ")");
        },
        None => {},
    }
    let ghost d2 = desc@;
    if f.enum_values.len() > 0 {
        text::append(&mut desc, " (oneof ");
        push_oneof(&mut desc, &f.enum_values);
        text::append(&mut desc, ")");
    }
    assert(d1 == f.description@ + default_part(*f));
    desc
}

/// The type a flag shows in help; slices are marked repeatable.
pub open spec fn type_name_spec(kind: FlagKind, fk: FieldKind) -> Seq<char> {
    match kind {
        FlagKind::Bool => "bool"@,
        FlagKind::Slice => "strings (repeatable)"@,
        FlagKind::Str => match fk {
            FieldKind::I8 | FieldKind::I16 | FieldKind::I32 | FieldKind::I64 | FieldKind::U8
            | FieldKind::U16 | FieldKind::U32 | FieldKind::U64 => "integer"@,
            FieldKind::F32 | FieldKind::F64 => "number"@,
            FieldKind::Duration => "duration"@,
            FieldKind::Time => "time"@,
            _ => "string"@,
        },
    }
}

fn flag_type_name(kind: FlagKind, fk: FieldKind) -> (r: &'static str)
    ensures
        r@ == type_name_spec(kind, fk),
{
    match kind {
        FlagKind::Bool => "bool",
        FlagKind::Slice => "strings (repeatable)",
        FlagKind::Str => match fk {
            FieldKind::I8 | FieldKind::I16 | FieldKind::I32 | FieldKind::I64 | FieldKind::U8
            | FieldKind::U16 | FieldKind::U32 | FieldKind::U64 => "integer",
            FieldKind::F32 | FieldKind::F64 => "number",
            FieldKind::Duration => "duration",
            FieldKind::Time => "time",
            _ => "string",
        },
    }
}

/// The widest first column, in UTF-8 bytes.
pub open spec fn rows_width(rows: Seq<(Seq<char>, Seq<char>)>) -> nat
    decreases rows.len(),
{
    if rows.len() == 0 {
        0
    } else {
        let w = rows_width(rows.drop_last());
        let l = vstd::utf8::encode_utf8(rows.last().0).len();
        if l > w {
            l
        } else {
            w
        }
    }
}

/// Two-column rows: a row without description is its name alone.
pub open spec fn rows_text(rows: Seq<(Seq<char>, Seq<char>)>, width: nat) -> Seq<char>
    decreases rows.len(),
{
    if rows.len() == 0 {
        Seq::empty()
    } else {
        let r = rows.last();
        rows_text(rows.drop_last(), width) + if r.1.len() == 0 {
            "  "@ + r.0 + "\n"@
        } else {
            "  "@ + text::pad_right(r.0, width) + "  "@ + r.1 + "\n"@
        }
    }
}

/// The views of two-column rows.
pub open spec fn row_views(v: Seq<(String, String)>) -> Seq<(Seq<char>, Seq<char>)> {
    v.map_values(|e: (String, String)| (e.0@, e.1@))
}

/// Appends two-column rows aligned on the widest first column.
fn push_rows(out: &mut String, rows: &Vec<(String, String)>)
    ensures
        final(out)@ == old(out)@ + rows_text(row_views(rows@), rows_width(row_views(rows@))),
{
    let ghost rv = row_views(rows@);
    let mut width: usize = 0;
    let mut i: usize = 0;
    while i < rows.len()
        invariant
            i <= rows.len(),
            rv == row_views(rows@),
            width == rows_width(rv.take(i as int)),
        decreases rows.len() - i,
    {
        proof {
            assert(rv.take(i + 1).drop_last() == rv.take(i as int));
            assert(rv.take(i + 1).last() == (rows@[i as int].0@, rows@[i as int].1@));
        }
        let l = rows[i].0.as_str().as_bytes().len();
        if l > width {
            width = l;
        }
        i += 1;
    }
    assert(rv.take(rows.len() as int) == rv);
    let ghost base = out@;
    let mut j: usize = 0;
    while j < rows.len()
        invariant
            j <= rows.len(),
            rv == row_views(rows@),
            out@ == base + rows_text(rv.take(j as int), width as nat),
        decreases rows.len() - j,
    {
        proof {
            assert(rv.take(j + 1).drop_last() == rv.take(j as int));
            assert(rv.take(j + 1).last() == (rows@[j as int].0@, rows@[j as int].1@));
        }
        if rows[j].1.as_str().is_empty() {
            text::append(out, "  ");
            text::append(out, rows[j].0.as_str());
            text::append(out, "\n");
        } else {
            text::append(out, "  ");
            text::append_padded(out, rows[j].0.as_str(), width);
            text::append(out, "  ");
            text::append(out, rows[j].1.as_str());
            text::append(out, "\n");
        }
        j += 1;
    }
    assert(rv.take(rows.len() as int) == rv);
}

// ------------------------------------------------------------ help of a node
/// Whether node `n` can be described: a leaf knows its command and its
/// field indices point into that command's fields.
pub open spec fn help_ready(t: Seq<NodeView>, entries: Seq<CliEntry>, n: int) -> bool {
    &&& 0 <= n < t.len()
    &&& tree::well_linked(t)
    &&& t[n].leaf matches Some(l) ==> (t[n].entry matches Some(e) && 0 <= e < entries.len()
        && crate::cli::app::leaf_fits(l, entries[e].fields@.len() as int))
}

/// The positional placeholders of a leaf's usage line.
pub open spec fn pos_text(fields: Seq<FieldMeta>, pos_f: Seq<int>) -> Seq<char>
    decreases pos_f.len(),
{
    if pos_f.len() == 0 {
        Seq::empty()
    } else {
        let f = fields[pos_f.last()];
        pos_text(fields, pos_f.drop_last()) + " <"@ + f.json_name@ + ">"@ + if !f.required {
            "?"@
        } else {
            Seq::empty()
        }
    }
}

/// What follows the binary name in the usage line.
pub open spec fn usage_tail(nd: NodeView, fields: Seq<FieldMeta>, st: LangState) -> Seq<char> {
    match nd.leaf {
        Some(l) => if nd.usage.len() > 0 {
            let segs = text::split(nd.path, '.');
            let prefix = text::join(segs.take(segs.len() - 1), " "@);
            (if prefix.len() > 0 {
                " "@ + prefix
            } else {
                Seq::empty()
            }) + " "@ + nd.usage + " [flags]"@
        } else {
            " "@ + text::replace_all(nd.path, "."@, " "@) + pos_text(fields, l.pos_f) + if l.defs.len()
                > 0 || l.pos_f.len() == 0 {
                " [flags]"@
            } else {
                Seq::empty()
            }
        },
        None => (if nd.path.len() > 0 {
            " "@ + text::replace_all(nd.path, "."@, " "@)
        } else {
            Seq::empty()
        }) + " "@ + lang::t_spec(st, "help.commands_placeholder"@),
    }
}

/// The rows of a group's visible children: segment and summary.
pub open spec fn child_rows(t: Seq<NodeView>, cs: Seq<int>) -> Seq<(Seq<char>, Seq<char>)>
    decreases cs.len(),
{
    if cs.len() == 0 {
        Seq::empty()
    } else {
        let c = t[cs.last()];
        child_rows(t, cs.drop_last()) + if !c.hidden {
            seq![(c.segment, c.short)]
        } else {
            Seq::empty()
        }
    }
}

/// The rows of a leaf's flags: `-s, --long type` and the description.
pub open spec fn flag_rows(l: crate::cli::tree::LeafView, fields: Seq<FieldMeta>) -> Seq<(Seq<char>, Seq<char>)>
    decreases l.defs.len(),
{
    if l.defs.len() == 0 {
        Seq::empty()
    } else {
        let k = l.defs.len() - 1;
        let f = fields[l.def_fields[k]];
        flag_rows(
            crate::cli::tree::LeafView { defs: l.defs.drop_last(), def_fields: l.def_fields.drop_last(), ..l },
            fields,
        ) + seq![(flag_name(l.defs[k], f), description_spec(f))]
    }
}

/// The rows of the global flags.
pub open spec fn global_rows(st: LangState) -> Seq<(Seq<char>, Seq<char>)> {
    seq![
        ("--json"@, lang::t_spec(st, "help.json_flag"@)),
        ("-v, --version"@, lang::t_spec(st, "help.version_flag"@)),
        ("-h, --help"@, lang::t_spec(st, "help.help_flag"@)),
    ]
}

/// The fields of the command behind node `nd` (none for a group).
pub open spec fn node_fields(nd: NodeView, entries: Seq<CliEntry>) -> Seq<FieldMeta> {
    match (nd.leaf, nd.entry) {
        (Some(_), Some(e)) => entries[e].fields@,
        _ => Seq::empty(),
    }
}

/// A leaf's custom block before (`first`) or after its help.
pub open spec fn custom_block(nd: NodeView, entries: Seq<CliEntry>, first: bool) -> Seq<char> {
    match (nd.leaf, nd.entry) {
        (Some(_), Some(e)) => overview::block_text(
            if first {
                entries[e].cli.before@
            } else {
                entries[e].cli.after@
            },
        ),
        _ => Seq::empty(),
    }
}

/// A node's description: the long one, else the summary.
pub open spec fn desc_part(nd: NodeView) -> Seq<char> {
    let desc = if nd.long.len() == 0 {
        nd.short
    } else {
        nd.long
    };
    if desc.len() > 0 {
        desc + "\n\n"@
    } else {
        Seq::empty()
    }
}

/// A node's usage line.
pub open spec fn usage_part(nd: NodeView, fields: Seq<FieldMeta>, bin: Seq<char>, st: LangState) -> Seq<char> {
    lang::t_spec(st, "help.usage"@) + "\n"@ + "  "@ + bin + usage_tail(nd, fields, st) + "\n"@
}

/// A node's aliases, if it has any.
pub open spec fn aliases_part(nd: NodeView, st: LangState) -> Seq<char> {
    if nd.aliases.len() > 0 {
        "\n"@ + lang::t_spec(st, "help.aliases"@) + "\n"@ + "  "@ + text::join(nd.aliases, ", "@)
            + "\n"@
    } else {
        Seq::empty()
    }
}

/// The description, the usage line and the aliases of a node.
pub open spec fn help_head(nd: NodeView, fields: Seq<FieldMeta>, bin: Seq<char>, st: LangState) -> Seq<char> {
    desc_part(nd) + usage_part(nd, fields, bin, st) + aliases_part(nd, st)
}

/// A group's subcommand table or a leaf's flag table.
pub open spec fn help_body(t: Seq<NodeView>, nd: NodeView, fields: Seq<FieldMeta>, st: LangState) -> Seq<char> {
    match nd.leaf {
        None => {
            let rows = child_rows(t, nd.children);
            "\n"@ + lang::t_spec(st, "help.commands"@) + "\n"@ + overview::table_rows(
                rows,
                rows_width(rows),
            )
        },
        Some(l) => if l.defs.len() > 0 {
            let rows = flag_rows(l, fields);
            "\n"@ + lang::t_spec(st, "help.flags"@) + "\n"@ + rows_text(rows, rows_width(rows))
        } else {
            Seq::empty()
        },
    }
}

/// The table of the global flags.
pub open spec fn global_text(st: LangState) -> Seq<char> {
    "\n"@ + lang::t_spec(st, "help.global_flags"@) + "\n"@ + rows_text(
        global_rows(st),
        rows_width(global_rows(st)),
    )
}

/// The help of node `n`: a leaf's custom block first, the description,
/// the usage line, the aliases, then the subcommands (a group) or the
/// flags (a leaf), the global flags, and a leaf's custom block last.
pub open spec fn help_spec(t: Seq<NodeView>, entries: Seq<CliEntry>, n: int, bin: Seq<char>, st: LangState) -> Seq<char> {
    let nd = t[n];
    let fields = node_fields(nd, entries);
    custom_block(nd, entries, true) + help_head(nd, fields, bin, st) + help_body(t, nd, fields, st)
        + global_text(st) + custom_block(nd, entries, false)
}

/// Appends the rows of a command table, aligned on the widest segment.
fn push_table(out: &mut String, rows: &Vec<(String, String)>)
    ensures
        final(out)@ == old(out)@ + overview::table_rows(row_views(rows@), rows_width(row_views(rows@))),
{
    let ghost rv = row_views(rows@);
    let mut width: usize = 0;
    let mut i: usize = 0;
    while i < rows.len()
        invariant
            i <= rows.len(),
            rv == row_views(rows@),
            width == rows_width(rv.take(i as int)),
        decreases rows.len() - i,
    {
        proof {
            assert(rv.take(i + 1).drop_last() == rv.take(i as int));
            assert(rv.take(i + 1).last() == (rows@[i as int].0@, rows@[i as int].1@));
        }
        let l = rows[i].0.as_str().as_bytes().len();
        if l > width {
            width = l;
        }
        i += 1;
    }
    assert(rv.take(rows.len() as int) == rv);
    let ghost base = out@;
    let mut j: usize = 0;
    while j < rows.len()
        invariant
            j <= rows.len(),
            rv == row_views(rows@),
            out@ == base + overview::table_rows(rv.take(j as int), width as nat),
        decreases rows.len() - j,
    {
        proof {
            assert(rv.take(j + 1).drop_last() == rv.take(j as int));
            assert(rv.take(j + 1).last() == (rows@[j as int].0@, rows@[j as int].1@));
        }
        text::append(out, "  ");
        text::append_padded(out, rows[j].0.as_str(), width);
        text::append(out, "  ");
        text::append(out, rows[j].1.as_str());
        text::append(out, "\n");
        j += 1;
    }
    assert(rv.take(rows.len() as int) == rv);
}

/// A leaf's positional fields are among `n` fields.
pub open spec fn pos_fits(nd: NodeView, n: int) -> bool {
    match nd.leaf {
        Some(l) => forall|k: int| 0 <= k < l.pos_f.len() ==> 0 <= #[trigger] l.pos_f[k] < n,
        None => true,
    }
}

/// Appends the positional placeholders of a leaf.
fn push_pos_text(out: &mut String, l: &crate::cli::tree::Leaf, fields: &Vec<FieldMeta>)
    requires
        forall|k: int| 0 <= k < l@.pos_f.len() ==> 0 <= #[trigger] l@.pos_f[k] < fields@.len(),
    ensures
        final(out)@ == old(out)@ + pos_text(fields@, l@.pos_f),
{
    let ghost base = out@;
    let ghost lv = l@;
    let mut i: usize = 0;
    assert(lv.pos_f.take(0) == Seq::<int>::empty());
    while i < l.pos_f.len()
        invariant
            i <= l.pos_f.len(),
            lv == l@,
            forall|k: int| 0 <= k < lv.pos_f.len() ==> 0 <= #[trigger] lv.pos_f[k] < fields@.len(),
            out@ == base + pos_text(fields@, lv.pos_f.take(i as int)),
        decreases l.pos_f.len() - i,
    {
        let fi = l.pos_f[i];
        proof {
            assert(lv.pos_f[i as int] == fi as int);
            assert(lv.pos_f.take(i + 1).drop_last() == lv.pos_f.take(i as int));
            assert(lv.pos_f.take(i + 1).last() == fi as int);
        }
        let f = &fields[fi];
        text::append(out, " <");
        text::append(out, f.json_name.as_str());
        text::append(out, ">");
        if !f.required {
            text::append(out, "?");
        }
        i += 1;
    }
    assert(lv.pos_f.take(l.pos_f.len() as int) == lv.pos_f);
}

fn push_usage_tail(out: &mut String, nd: &crate::cli::tree::CmdNode, fields: &Vec<FieldMeta>, st: &LangState)
    requires
        pos_fits(nd@, fields@.len() as int),
    ensures
        final(out)@ == old(out)@ + usage_tail(nd@, fields@, *st),
{
    match &nd.leaf {
        Some(l) => {
            if !nd.usage.as_str().is_empty() {
                let cs = text::chars_of(nd.path.as_str());
                let pieces = text::split_chars(cs.as_slice(), '.');
                let ghost sp = text::split(nd.path@, '.');
                proof {
                    text::lemma_split_len(nd.path@, '.');
                }
                let mut segs: Vec<String> = Vec::new();
                let mut k: usize = 0;
                while k + 1 < pieces.len()
                    invariant
                        k + 1 <= pieces.len(),
                        pieces@.len() == sp.len(),
                        forall|j: int| 0 <= j < pieces@.len() ==> (#[trigger] pieces@[j])@ == sp[j],
                        text::views(segs@) == sp.take(k as int),
                    decreases pieces.len() - k,
                {
                    let ghost before = text::views(segs@);
                    segs.push(text::string_of(pieces[k].as_slice()));
                    assert(text::views(segs@) == before.push(sp[k as int]));
                    assert(sp.take(k + 1) == sp.take(k as int).push(sp[k as int]));
                    k += 1;
                }
                let prefix = text::join_strings(&segs, " ");
                if !prefix.as_str().is_empty() {
                    text::append(out, " ");
                    text::append(out, prefix.as_str());
                }
                text::append(out, " ");
                text::append(out, nd.usage.as_str());
                text::append(out, " [flags]");
            } else {
                text::append(out, " ");
                let p = text::replace(nd.path.as_str(), ".", " ");
                text::append(out, p.as_str());
                proof {
                    let lv = nd@.leaf->0;
                    assert(nd@.leaf == Some(l@));
                    assert(lv == l@);
                    assert forall|k: int| 0 <= k < l@.pos_f.len() implies 0 <= #[trigger] l@.pos_f[k]
                        < fields@.len() by {
                        assert(0 <= lv.pos_f[k] < fields@.len());
                    }
                }
                push_pos_text(out, l, fields);
                if l.defs.len() > 0 || l.pos_f.len() == 0 {
                    text::append(out, " [flags]");
                }
            }
        },
        None => {
            if !nd.path.as_str().is_empty() {
                text::append(out, " ");
                let p = text::replace(nd.path.as_str(), ".", " ");
                text::append(out, p.as_str());
            }
            text::append(out, " ");
            let ph = lang::t(st, "help.commands_placeholder");
            text::append(out, ph.as_str());
        },
    }
}

fn visible_rows(tr: &CmdTree, n: usize) -> (r: Vec<(String, String)>)
    requires
        n < tr.nodes.len(),
        tree::well_linked(tree::node_views(tr.nodes@)),
    ensures
        row_views(r@) == child_rows(tree::node_views(tr.nodes@), tree::node_views(tr.nodes@)[n as int].children),
{
    let ghost t = tree::node_views(tr.nodes@);
    let ghost cs = t[n as int].children;
    let mut r: Vec<(String, String)> = Vec::new();
    let mut i: usize = 0;
    assert(cs.take(0) == Seq::<int>::empty());
    while i < tr.nodes[n].children.len()
        invariant
            n < tr.nodes.len(),
            t == tree::node_views(tr.nodes@),
            cs == t[n as int].children,
            tree::well_linked(t),
            i <= cs.len(),
            cs.len() == tr.nodes@[n as int].children@.len(),
            row_views(r@) == child_rows(t, cs.take(i as int)),
        decreases cs.len() - i,
    {
        let c = tr.nodes[n].children[i];
        proof {
            assert(cs[i as int] == c as int);
            assert(0 <= cs[i as int] < t.len());
            assert(cs.take(i + 1).drop_last() == cs.take(i as int));
            assert(cs.take(i + 1).last() == c as int);
        }
        let ch = &tr.nodes[c];
        assert(t[c as int] == ch@);
        let ghost before = row_views(r@);
        if !ch.hidden {
            r.push((ch.segment.clone(), ch.short.clone()));
            assert(row_views(r@) == before + seq![(ch.segment@, ch.short@)]);
        } else {
            assert(before + Seq::<(Seq<char>, Seq<char>)>::empty() == before);
        }
        i += 1;
    }
    assert(cs.take(i as int) == cs);
    r
}

/// The first column of a flag's row: `-s, --long type`.
pub open spec fn flag_name(d: crate::cli::parse::FlagDefView, f: FieldMeta) -> Seq<char> {
    let long = "--"@ + d.long;
    let name = match d.short {
        Some(sh) => "-"@ + seq![sh] + ", "@ + long,
        None => long,
    };
    name + " "@ + type_name_spec(d.kind, f.kind)
}

fn flag_row_name(d: &FlagDef, f: &FieldMeta) -> (r: String)
    ensures
        r@ == flag_name(d@, *f),
{
    proof {
        reveal_strlit("--");
        reveal_strlit("-");
        reveal_strlit(", ");
        reveal_strlit(" ");
    }
    let mut name = text::owned("--");
    text::append(&mut name, d.long.as_str());
    match d.short {
        Some(sh) => {
            let mut full = text::owned("-");
            text::push_char(&mut full, sh);
            assert(full@ == "-"@ + seq![sh]);
            text::append(&mut full, ", ");
            text::append(&mut full, name.as_str());
            name = full;
        },
        None => {},
    }
    text::append(&mut name, " ");
    text::append(&mut name, flag_type_name(d.kind, f.kind));
    name
}

proof fn lemma_flag_rows_step(l: crate::cli::tree::LeafView, fields: Seq<FieldMeta>, i: int)
    requires
        0 <= i < l.defs.len(),
        l.defs.len() == l.def_fields.len(),
    ensures
        flag_rows(
            crate::cli::tree::LeafView { defs: l.defs.take(i + 1), def_fields: l.def_fields.take(i + 1), ..l },
            fields,
        ) == flag_rows(
            crate::cli::tree::LeafView { defs: l.defs.take(i), def_fields: l.def_fields.take(i), ..l },
            fields,
        ) + seq![(flag_name(l.defs[i], fields[l.def_fields[i]]), description_spec(fields[l.def_fields[i]]))],
{
    let l2 = crate::cli::tree::LeafView { defs: l.defs.take(i + 1), def_fields: l.def_fields.take(i + 1), ..l };
    let l1 = crate::cli::tree::LeafView { defs: l.defs.take(i), def_fields: l.def_fields.take(i), ..l };
    assert(l2.defs.drop_last() == l1.defs);
    assert(l2.def_fields.drop_last() == l1.def_fields);
    assert(crate::cli::tree::LeafView { defs: l2.defs.drop_last(), def_fields: l2.def_fields.drop_last(), ..l2 } == l1);
}

fn leaf_flag_rows(l: &crate::cli::tree::Leaf, fields: &Vec<FieldMeta>) -> (r: Vec<(String, String)>)
    requires
        crate::cli::app::leaf_fits(l@, fields@.len() as int),
    ensures
        row_views(r@) == flag_rows(l@, fields@),
{
    let ghost lv = l@;
    let mut r: Vec<(String, String)> = Vec::new();
    let mut i: usize = 0;
    proof {
        assert(lv.defs.take(0) == Seq::<crate::cli::parse::FlagDefView>::empty());
        assert(lv.def_fields.take(0) == Seq::<int>::empty());
        assert(row_views(r@) == Seq::<(Seq<char>, Seq<char>)>::empty());
    }
    while i < l.defs.len()
        invariant
            i <= l.defs.len(),
            lv == l@,
            crate::cli::app::leaf_fits(lv, fields@.len() as int),
            row_views(r@) == flag_rows(
                crate::cli::tree::LeafView {
                    defs: lv.defs.take(i as int),
                    def_fields: lv.def_fields.take(i as int),
                    ..lv
                },
                fields@,
            ),
        decreases l.defs.len() - i,
    {
        let d: &FlagDef = &l.defs[i];
        let fi = l.def_fields[i];
        proof {
            assert(lv.def_fields[i as int] == fi as int);
            assert(lv.defs[i as int] == d@);
        }
        let f = &fields[fi];
        let name = flag_row_name(d, f);
        let desc = flag_description(f);
        let ghost before = r@;
        let ghost row = (name@, desc@);
        r.push((name, desc));
        proof {
            lemma_flag_rows_step(lv, fields@, i as int);
            assert(row_views(r@) =~= row_views(before).push(row));
        }
        i += 1;
    }
    proof {
        assert(lv.defs.take(l.defs.len() as int) == lv.defs);
        assert(lv.def_fields.take(l.defs.len() as int) == lv.def_fields);
    }
    r
}

fn push_desc(out: &mut String, nd: &crate::cli::tree::CmdNode)
    ensures
        final(out)@ == old(out)@ + desc_part(nd@),
{
    let desc = if nd.long.as_str().is_empty() {
        nd.short.as_str()
    } else {
        nd.long.as_str()
    };
    if !desc.is_empty() {
        text::append(out, desc);
        text::append(out, "\n\n");
    }
}

fn push_usage(out: &mut String, nd: &crate::cli::tree::CmdNode, fields: &Vec<FieldMeta>, bin: &str, st: &LangState)
    requires
        pos_fits(nd@, fields@.len() as int),
    ensures
        final(out)@ == old(out)@ + usage_part(nd@, fields@, bin@, *st),
{
    let u = lang::t(st, "help.usage");
    text::append(out, u.as_str());
    text::append(out, "\n");
    text::append(out, "  ");
    text::append(out, bin);
    push_usage_tail(out, nd, fields, st);
    text::append(out, "\n");
}

fn push_aliases(out: &mut String, nd: &crate::cli::tree::CmdNode, st: &LangState)
    ensures
        final(out)@ == old(out)@ + aliases_part(nd@, *st),
{
    if nd.aliases.len() > 0 {
        text::append(out, "\n");
        let a = lang::t(st, "help.aliases");
        text::append(out, a.as_str());
        text::append(out, "\n");
        text::append(out, "  ");
        let j = text::join_strings(&nd.aliases, ", ");
        text::append(out, j.as_str());
        text::append(out, "\n");
    }
}

fn push_help_head(out: &mut String, nd: &crate::cli::tree::CmdNode, fields: &Vec<FieldMeta>, bin: &str, st: &LangState)
    requires
        pos_fits(nd@, fields@.len() as int),
    ensures
        final(out)@ == old(out)@ + help_head(nd@, fields@, bin@, *st),
{
    push_desc(out, nd);
    push_usage(out, nd, fields, bin, st);
    push_aliases(out, nd, st);
}

fn push_help_body(out: &mut String, tr: &CmdTree, n: usize, fields: &Vec<FieldMeta>, st: &LangState)
    requires
        n < tr.nodes.len(),
        tree::well_linked(tree::node_views(tr.nodes@)),
        tr.nodes@[n as int]@.leaf matches Some(l) ==> crate::cli::app::leaf_fits(l, fields@.len() as int),
    ensures
        final(out)@ == old(out)@ + help_body(tree::node_views(tr.nodes@), tr.nodes@[n as int]@, fields@, *st),
{
    let nd = &tr.nodes[n];
    assert(tree::node_views(tr.nodes@)[n as int] == nd@);
    match &nd.leaf {
        None => {
            text::append(out, "\n");
            let c = lang::t(st, "help.commands");
            text::append(out, c.as_str());
            text::append(out, "\n");
            let rows = visible_rows(tr, n);
            push_table(out, &rows);
        },
        Some(l) => {
            assert(nd@.leaf == Some(l@));
            if l.defs.len() > 0 {
                text::append(out, "\n");
                let fl = lang::t(st, "help.flags");
                text::append(out, fl.as_str());
                text::append(out, "\n");
                let rows = leaf_flag_rows(l, fields);
                push_rows(out, &rows);
            }
        },
    }
}

fn push_global_flags(out: &mut String, st: &LangState)
    ensures
        final(out)@ == old(out)@ + global_text(*st),
{
    text::append(out, "\n");
    let g = lang::t(st, "help.global_flags");
    text::append(out, g.as_str());
    text::append(out, "\n");
    let rows = vec![
        (text::owned("--json"), lang::t(st, "help.json_flag")),
        (text::owned("-v, --version"), lang::t(st, "help.version_flag")),
        (text::owned("-h, --help"), lang::t(st, "help.help_flag")),
    ];
    assert(row_views(rows@) =~= global_rows(*st));
    push_rows(out, &rows);
}

fn custom_block_text(nd: &crate::cli::tree::CmdNode, entries: &[CliEntry], first: bool) -> (r: String)
    requires
        nd@.leaf is Some ==> (nd@.entry matches Some(e) && e < entries@.len()),
    ensures
        r@ == custom_block(nd@, entries@, first),
{
    match (&nd.leaf, nd.entry) {
        (Some(_), Some(e)) => {
            if first {
                write_help_block(entries[e].cli.before.as_str())
            } else {
                write_help_block(entries[e].cli.after.as_str())
            }
        },
        _ => String::new(),
    }
}

/// The help of node `n`.
pub fn print_help(tr: &CmdTree, entries: &[CliEntry], n: usize, bin: &str, st: &LangState) -> (r: String)
    requires
        help_ready(tree::node_views(tr.nodes@), entries@, n as int),
    ensures
        r@ == help_spec(tree::node_views(tr.nodes@), entries@, n as int, bin@, *st),
{
    let ghost t = tree::node_views(tr.nodes@);
    let nd = &tr.nodes[n];
    assert(t[n as int] == nd@);
    let empty: Vec<FieldMeta> = Vec::new();
    let fields: &Vec<FieldMeta> = match (&nd.leaf, nd.entry) {
        (Some(_), Some(e)) => &entries[e].fields,
        _ => &empty,
    };
    assert(fields@ == node_fields(nd@, entries@));
    let mut out = custom_block_text(nd, entries, true);
    push_help_head(&mut out, nd, fields, bin, st);
    push_help_body(&mut out, tr, n, fields, st);
    push_global_flags(&mut out, st);
    let b = custom_block_text(nd, entries, false);
    text::append(&mut out, b.as_str());
    out
}

fn indices_below(v: &Vec<usize>, n: usize) -> (r: bool)
    ensures
        r == (forall|k: int| 0 <= k < v@.len() ==> 0 <= #[trigger] tree::ints(v@)[k] < n),
{
    let mut i: usize = 0;
    while i < v.len()
        invariant
            i <= v.len(),
            forall|k: int| 0 <= k < i ==> 0 <= #[trigger] tree::ints(v@)[k] < n,
        decreases v.len() - i,
    {
        if v[i] >= n {
            assert(tree::ints(v@)[i as int] == v@[i as int] as int);
            return false;
        }
        i += 1;
    }
    true
}

/// The help of node `n` of a built tree, if `n` is a node and its
/// command's fields are those the leaf was built from (else none).
pub fn help_of(tr: &CmdTree, entries: &[CliEntry], n: usize, bin: &str, st: &LangState) -> (r: Option<String>)
    requires
        tree::well_linked(tree::node_views(tr.nodes@)),
    ensures
        match r {
            Some(h) => help_ready(tree::node_views(tr.nodes@), entries@, n as int) && h@ == help_spec(
                tree::node_views(tr.nodes@),
                entries@,
                n as int,
                bin@,
                *st,
            ),
            None => !help_ready(tree::node_views(tr.nodes@), entries@, n as int),
        },
{
    if n >= tr.nodes.len() {
        return None;
    }
    let nd = &tr.nodes[n];
    assert(tree::node_views(tr.nodes@)[n as int] == nd@);
    match &nd.leaf {
        None => {},
        Some(l) => {
            let e = match nd.entry {
                Some(e) => e,
                None => {
                    return None;
                },
            };
            if e >= entries.len() {
                return None;
            }
            let nf = entries[e].fields.len();
            proof {
                assert(nd@.leaf == Some(l@));
                assert(nd@.entry == Some(e as int));
                assert(l@.def_fields == tree::ints(l.def_fields@));
                assert(l@.env_only == tree::ints(l.env_only@));
                assert(l@.pos_f == tree::ints(l.pos_f@));
                assert(l@.defs.len() == l.defs@.len());
            }
            if l.defs.len() != l.def_fields.len() || !indices_below(&l.def_fields, nf) || !indices_below(
                &l.env_only,
                nf,
            ) || !indices_below(&l.pos_f, nf) {
                return None;
            }
        },
    }
    Some(print_help(tr, entries, n, bin, st))
}

} // verus!
