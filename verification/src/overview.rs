//! The overview printed without arguments or for `help`: the three ways
//! to run the program, the built-in parameters, and the command table
//! (hidden when the CLI is switched off).
use vstd::prelude::*;
use crate::config::Capabilities;
use crate::dispatch;
use crate::lang::{self, LangState};
use crate::text;

verus! {

/// A custom help block as printed: nothing when empty, otherwise the text
/// with its trailing newlines folded into one.
pub open spec fn block_text(s: Seq<char>) -> Seq<char> {
    if s.len() == 0 {
        Seq::empty()
    } else {
        text::trim_end_char(s, '\n') + "\n"@
    }
}

/// A custom help block as printed.
pub fn write_block(s: &str) -> (r: String)
    ensures
        r@ == block_text(s@),
{
    if s.is_empty() {
        return String::new();
    }
    let mut r = text::trim_end_matches(s, '\n');
    text::append(&mut r, "\n");
    r
}

/// The widest name, in UTF-8 bytes.
pub open spec fn name_width(names: Seq<Seq<char>>) -> nat
    decreases names.len(),
{
    if names.len() == 0 {
        0
    } else {
        let w = name_width(names.drop_last());
        let l = vstd::utf8::encode_utf8(names.last()).len();
        if l > w {
            l
        } else {
            w
        }
    }
}

/// The command table rows: two spaces, the name padded to `width`, two
/// spaces, the summary.
pub open spec fn table_rows(entries: Seq<(Seq<char>, Seq<char>)>, width: nat) -> Seq<char>
    decreases entries.len(),
{
    if entries.len() == 0 {
        Seq::empty()
    } else {
        table_rows(entries.drop_last(), width) + "  "@ + text::pad_right(entries.last().0, width)
            + "  "@ + entries.last().1 + "\n"@
    }
}

/// A mode line with its state mark: switched off, or not built in.
pub open spec fn mode_line(st: LangState, line: Seq<char>, off: bool, built: bool) -> Seq<char> {
    line + if off {
        lang::t_spec(st, "overview.disabled"@)
    } else if !built {
        lang::t_spec(st, "overview.not_compiled"@)
    } else {
        Seq::empty()
    } + "\n"@
}

/// The overview text for the registered `(name, summary)` pairs (sorted
/// by name).
pub open spec fn overview_spec(
    st: LangState,
    entries: Seq<(Seq<char>, Seq<char>)>,
    serve: Seq<char>,
    mcp_word: Seq<char>,
    caps: Capabilities,
    before: Seq<char>,
    after: Seq<char>,
) -> Seq<char> {
    let head = block_text(before) + lang::t_spec(st, "overview.usage_line"@) + "\n"@ + mode_line(
        st,
        lang::t_spec(st, "overview.cli_mode"@),
        caps.no_cli,
        true,
    ) + mode_line(
        st,
        lang::fill(lang::t_spec(st, "overview.serve_mode"@), seq![serve]),
        caps.no_http,
        true,
    ) + mode_line(
        st,
        lang::fill(lang::t_spec(st, "overview.mcp_mode"@), seq![mcp_word]),
        caps.no_mcp,
        false,
    ) + lang::t_spec(st, "overview.builtins"@) + "\n"@;
    if entries.len() == 0 || caps.no_cli {
        head + block_text(after)
    } else {
        head + "\n"@ + lang::t_spec(st, "overview.commands"@) + "\n"@ + table_rows(
            entries,
            name_width(entries.map_values(|e: (Seq<char>, Seq<char>)| e.0)),
        ) + block_text(after)
    }
}

/// The views of `(name, summary)` pairs.
pub open spec fn pair_views(v: Seq<(String, String)>) -> Seq<(Seq<char>, Seq<char>)> {
    v.map_values(|e: (String, String)| (e.0@, e.1@))
}

fn push_mode_line(out: &mut String, st: &LangState, line: &str, off: bool, built: bool)
    ensures
        final(out)@ == old(out)@ + mode_line(*st, line@, off, built),
{
    text::append(out, line);
    if off {
        let m = lang::t(st, "overview.disabled");
        text::append(out, m.as_str());
    } else if !built {
        let m = lang::t(st, "overview.not_compiled");
        text::append(out, m.as_str());
    }
    text::append(out, "\n");
}

/// The overview as printed.
pub fn print_overview(
    st: &LangState,
    entries: &[(String, String)],
    serve: &str,
    mcp_word: &str,
    caps: Capabilities,
    help_before: &str,
    help_after: &str,
) -> (r: String)
    ensures
        r@ == overview_spec(
            *st,
            pair_views(entries@),
            serve@,
            mcp_word@,
            caps,
            help_before@,
            help_after@,
        ),
{
    let mut out = write_block(help_before);
    let u = lang::t(st, "overview.usage_line");
    text::append(&mut out, u.as_str());
    text::append(&mut out, "\n");
    assert(out@ == block_text(help_before@) + lang::t_spec(*st, "overview.usage_line"@) + "\n"@);
    let ghost p1 = out@;
    let cli = lang::t(st, "overview.cli_mode");
    push_mode_line(&mut out, st, cli.as_str(), caps.no_cli, dispatch::cli_frontend_compiled());
    assert(out@ == p1 + mode_line(*st, lang::t_spec(*st, "overview.cli_mode"@), caps.no_cli, true));
    let sp = [serve];
    let mp = [mcp_word];
    proof {
        assert(sp@ =~= seq![serve]);
        assert(mp@ =~= seq![mcp_word]);
        assert(sp@.map_values(|p: &str| p@) =~= seq![serve@]);
        assert(mp@.map_values(|p: &str| p@) =~= seq![mcp_word@]);
    }
    let sl = lang::tf(st, "overview.serve_mode", &sp);
    assert(sl@ == lang::fill(lang::t_spec(*st, "overview.serve_mode"@), seq![serve@]));
    push_mode_line(&mut out, st, sl.as_str(), caps.no_http, dispatch::http_frontend_compiled());
    let ml = lang::tf(st, "overview.mcp_mode", &mp);
    assert(ml@ == lang::fill(lang::t_spec(*st, "overview.mcp_mode"@), seq![mcp_word@]));
    push_mode_line(&mut out, st, ml.as_str(), caps.no_mcp, dispatch::mcp_frontend_compiled());
    let b = lang::t(st, "overview.builtins");
    text::append(&mut out, b.as_str());
    text::append(&mut out, "\n");
    let ghost ev = pair_views(entries@);
    let ghost names = ev.map_values(|e: (Seq<char>, Seq<char>)| e.0);
    let ghost head = block_text(help_before@) + lang::t_spec(*st, "overview.usage_line"@) + "\n"@
        + mode_line(*st, lang::t_spec(*st, "overview.cli_mode"@), caps.no_cli, true) + mode_line(
        *st,
        lang::fill(lang::t_spec(*st, "overview.serve_mode"@), seq![serve@]),
        caps.no_http,
        true,
    ) + mode_line(
        *st,
        lang::fill(lang::t_spec(*st, "overview.mcp_mode"@), seq![mcp_word@]),
        caps.no_mcp,
        false,
    ) + lang::t_spec(*st, "overview.builtins"@) + "\n"@;
    assert(out@ == head);
    if entries.len() == 0 || caps.no_cli {
        let a = write_block(help_after);
        text::append(&mut out, a.as_str());
        return out;
    }
    text::append(&mut out, "\n");
    let c = lang::t(st, "overview.commands");
    text::append(&mut out, c.as_str());
    text::append(&mut out, "\n");
    let mut width: usize = 0;
    let mut i: usize = 0;
    while i < entries.len()
        invariant
            i <= entries.len(),
            ev == pair_views(entries@),
            names == ev.map_values(|e: (Seq<char>, Seq<char>)| e.0),
            width == name_width(names.take(i as int)),
        decreases entries.len() - i,
    {
        proof {
            assert(names.take(i + 1).drop_last() == names.take(i as int));
            assert(names.take(i + 1).last() == entries@[i as int].0@);
        }
        let l = entries[i].0.as_str().as_bytes().len();
        if l > width {
            width = l;
        }
        i += 1;
    }
    assert(names.take(entries.len() as int) == names);
    let ghost start = out@;
    let mut j: usize = 0;
    while j < entries.len()
        invariant
            j <= entries.len(),
            ev == pair_views(entries@),
            out@ == start + table_rows(ev.take(j as int), width as nat),
        decreases entries.len() - j,
    {
        proof {
            assert(ev.take(j + 1).drop_last() == ev.take(j as int));
            assert(ev.take(j + 1).last() == (entries@[j as int].0@, entries@[j as int].1@));
        }
        text::append(&mut out, "  ");
        text::append_padded(&mut out, entries[j].0.as_str(), width);
        text::append(&mut out, "  ");
        text::append(&mut out, entries[j].1.as_str());
        text::append(&mut out, "\n");
        j += 1;
    }
    assert(ev.take(entries.len() as int) == ev);
    let a = write_block(help_after);
    text::append(&mut out, a.as_str());
    out
}

} // verus!
