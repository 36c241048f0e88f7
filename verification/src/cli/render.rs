//! The human-readable rendering of a command's result:
//!
//! - null prints nothing;
//! - a string prints as is, a boolean or a number bare, each on its line;
//! - an array of objects is an aligned table (header, rule, rows);
//! - another array prints one item per line;
//! - an object prints as aligned `key  value` lines.
//!
//! Column widths count UTF-8 bytes while padding counts characters, so a
//! key of wide characters keeps the byte-aligned layout.  A number prints
//! by its display text, which the caller supplies where it differs from the
//! JSON text (a float such as `3.0` displays as `3`).
use vstd::prelude::*;
use crate::json::{self, Json};
use crate::text;

verus! {

/// The display text of a number whose JSON text is `json`.
#[derive(Debug)]
pub struct NumberShown {
    pub json: String,
    pub shown: String,
}

/// How a number with JSON text `t` is shown: the first entry for it from
/// the `i`-th on, else its JSON text.
pub open spec fn shown_from(t: Seq<char>, tb: Seq<NumberShown>, i: int) -> Seq<char>
    decreases tb.len() - i,
{
    if i < 0 || i >= tb.len() {
        t
    } else if tb[i].json@ == t {
        tb[i].shown@
    } else {
        shown_from(t, tb, i + 1)
    }
}

/// One table cell or key-value value: nothing for null, a string as is,
/// a boolean or number bare, an array as its items' cells in brackets
/// joined by spaces, an object as its compact JSON text.
pub open spec fn cell_spec(v: Json, tb: Seq<NumberShown>) -> Seq<char>
    decreases v,
{
    match v {
        Json::Null => ""@,
        Json::Bool(b) => if b {
            "true"@
        } else {
            "false"@
        },
        Json::Number(t) => shown_from(t@, tb, 0),
        Json::Str(s) => s@,
        Json::Array(items) => "["@ + cells_text(items@, tb) + "]"@,
        Json::Object(_) => json::json_compact(json::json_view(v)),
    }
}

/// The cells of items joined by single spaces.
pub open spec fn cells_text(items: Seq<Json>, tb: Seq<NumberShown>) -> Seq<char>
    decreases items,
{
    if items.len() == 0 {
        Seq::empty()
    } else if items.len() == 1 {
        cell_spec(items[0], tb)
    } else {
        cells_text(items.drop_last(), tb) + " "@ + cell_spec(items.last(), tb)
    }
}

/// The number of UTF-8 bytes of a character.
pub open spec fn utf8_width(c: char) -> nat {
    if (c as u32) < 0x80 {
        1
    } else if (c as u32) < 0x800 {
        2
    } else if (c as u32) < 0x10000 {
        3
    } else {
        4
    }
}

/// The number of UTF-8 bytes of a text.
pub open spec fn byte_len(s: Seq<char>) -> nat
    decreases s.len(),
{
    if s.len() == 0 {
        0
    } else {
        byte_len(s.drop_last()) + utf8_width(s.last())
    }
}

/// Each item's cell on its own line.
pub open spec fn lines_text(items: Seq<Json>, tb: Seq<NumberShown>) -> Seq<char>
    decreases items.len(),
{
    if items.len() == 0 {
        Seq::empty()
    } else {
        lines_text(items.drop_last(), tb) + cell_spec(items.last(), tb) + "\n"@
    }
}

/// The widest key of the first `n` members, in bytes.
pub open spec fn key_width(ms: Seq<(String, Json)>, n: int) -> nat
    decreases n,
{
    if n <= 0 || n > ms.len() {
        0
    } else {
        let w = key_width(ms, n - 1);
        let k = byte_len(ms[n - 1].0@);
        if k > w {
            k
        } else {
            w
        }
    }
}

/// The `key  value` lines of the first `n` members, keys padded to `w`.
pub open spec fn kv_lines(ms: Seq<(String, Json)>, w: nat, tb: Seq<NumberShown>, n: int) -> Seq<char>
    decreases n,
{
    if n <= 0 || n > ms.len() {
        Seq::empty()
    } else {
        kv_lines(ms, w, tb, n - 1) + text::pad_right(ms[n - 1].0@, w) + "  "@ + cell_spec(ms[n - 1].1, tb)
            + "\n"@
    }
}

/// The keys of an object's members, in order.
pub open spec fn keys_of(ms: Seq<(String, Json)>) -> Seq<Seq<char>> {
    ms.map_values(|p: (String, Json)| p.0@)
}

/// The cell of an item in the column of `k`: the member's cell for an
/// object (nothing where it has no such member), the whole item's cell
/// otherwise.
pub open spec fn cell_at(item: Json, k: Seq<char>, tb: Seq<NumberShown>) -> Seq<char> {
    match item {
        Json::Object(ms) => match json::member(ms@, k) {
            Some(x) => cell_spec(x, tb),
            None => ""@,
        },
        _ => cell_spec(item, tb),
    }
}

/// The width of the column of `k` over the first `n` items, in bytes: the
/// key's, widened by the cells of the items that are objects.
pub open spec fn col_width(k: Seq<char>, items: Seq<Json>, tb: Seq<NumberShown>, n: int) -> nat
    decreases n,
{
    if n <= 0 || n > items.len() {
        byte_len(k)
    } else {
        let w = col_width(k, items, tb, n - 1);
        if items[n - 1] is Object && byte_len(cell_at(items[n - 1], k, tb)) > w {
            byte_len(cell_at(items[n - 1], k, tb))
        } else {
            w
        }
    }
}

/// The column widths of a table.
pub open spec fn widths_of(keys: Seq<Seq<char>>, items: Seq<Json>, tb: Seq<NumberShown>) -> Seq<nat> {
    Seq::new(keys.len(), |j: int| col_width(keys[j], items, tb, items.len() as int))
}

/// The first `n` cells padded to their widths, joined by two spaces.
pub open spec fn padded_cells(cells: Seq<Seq<char>>, widths: Seq<nat>, n: int) -> Seq<char>
    decreases n,
{
    if n <= 0 {
        Seq::empty()
    } else if n == 1 {
        text::pad_right(cells[0], widths[0])
    } else {
        padded_cells(cells, widths, n - 1) + "  "@ + text::pad_right(cells[n - 1], widths[n - 1])
    }
}

/// A table row: its cells padded and joined, then a newline.
pub open spec fn row_text(cells: Seq<Seq<char>>, widths: Seq<nat>) -> Seq<char> {
    padded_cells(cells, widths, cells.len() as int) + "\n"@
}

/// The rule under the header: each column's width in dashes.
pub open spec fn dashes(widths: Seq<nat>) -> Seq<Seq<char>> {
    widths.map_values(|w: nat| Seq::new(w, |i: int| '-'))
}

/// The rows of the first `n` items.
pub open spec fn rows_text(items: Seq<Json>, keys: Seq<Seq<char>>, widths: Seq<nat>, tb: Seq<NumberShown>, n: int) -> Seq<
    char,
>
    decreases n,
{
    if n <= 0 || n > items.len() {
        Seq::empty()
    } else {
        rows_text(items, keys, widths, tb, n - 1) + row_text(
            keys.map_values(|k: Seq<char>| cell_at(items[n - 1], k, tb)),
            widths,
        )
    }
}

/// A table of items whose first item is an object with members `ms0`:
/// nothing where it has no member; else the header of its keys, the rule
/// and one row per item.
pub open spec fn table_text(ms0: Seq<(String, Json)>, items: Seq<Json>, tb: Seq<NumberShown>) -> Seq<char> {
    let keys = keys_of(ms0);
    let widths = widths_of(keys, items, tb);
    if keys.len() == 0 {
        Seq::empty()
    } else {
        row_text(keys, widths) + row_text(dashes(widths), widths) + rows_text(
            items,
            keys,
            widths,
            tb,
            items.len() as int,
        )
    }
}

/// The rendering of a result (see the module's description).
pub open spec fn render_spec(v: Json, tb: Seq<NumberShown>) -> Seq<char> {
    match v {
        Json::Null => Seq::empty(),
        Json::Array(items) => if items.len() == 0 {
            Seq::empty()
        } else {
            match items@[0] {
                Json::Object(ms0) => table_text(ms0@, items@, tb),
                _ => lines_text(items@, tb),
            }
        },
        Json::Object(ms) => kv_lines(ms@, key_width(ms@, ms.len() as int), tb, ms.len() as int),
        _ => cell_spec(v, tb) + "\n"@,
    }
}

/// A number without an entry in the display table from the `i`-th on
/// shows as its JSON text.
proof fn lemma_shown_unlisted(t: Seq<char>, tb: Seq<NumberShown>, i: int)
    requires
        0 <= i,
        forall|k: int| i <= k < tb.len() ==> (#[trigger] tb[k]).json@ != t,
    ensures
        shown_from(t, tb, i) == t,
    decreases tb.len() - i,
{
    if i < tb.len() {
        lemma_shown_unlisted(t, tb, i + 1);
    }
}

/// Scalars show bare: `null` as nothing, a boolean as `true` or `false`
/// (never as the empty null cell), a string as its text, and a number as
/// its JSON text unless the display table lists it; a scalar result is
/// its cell and a newline.
pub proof fn lemma_scalar_cells(b: bool, s: String, t: String, tb: Seq<NumberShown>)
    ensures
        cell_spec(Json::Null, tb).len() == 0,
        cell_spec(Json::Bool(true), tb) == "true"@,
        cell_spec(Json::Bool(false), tb) == "false"@,
        cell_spec(Json::Bool(b), tb).len() > 0,
        cell_spec(Json::Str(s), tb) == s@,
        (forall|k: int| 0 <= k < tb.len() ==> (#[trigger] tb[k]).json@ != t@) ==> cell_spec(
            Json::Number(t),
            tb,
        ) == t@,
        render_spec(Json::Bool(true), tb) == "true\n"@,
        render_spec(Json::Bool(false), tb) == "false\n"@,
        render_spec(Json::Str(s), tb) == s@ + "\n"@,
{
    reveal_strlit("");
    reveal_strlit("true");
    reveal_strlit("false");
    reveal_strlit("\n");
    reveal_strlit("true\n");
    reveal_strlit("false\n");
    assert("true"@ + "\n"@ =~= "true\n"@);
    assert("false"@ + "\n"@ =~= "false\n"@);
    if forall|k: int| 0 <= k < tb.len() ==> (#[trigger] tb[k]).json@ != t@ {
        lemma_shown_unlisted(t@, tb, 0);
    }
}

/// A list shows in brackets, its items' cells joined by single spaces; a
/// list of scalars renders one item per line.
pub proof fn lemma_list_cells(a: Json, b: Json, tb: Seq<NumberShown>)
    ensures
        forall|items: Vec<Json>| items@.len() == 0 ==> #[trigger] cell_spec(Json::Array(items), tb) == "[]"@,
        forall|items: Vec<Json>|
            items@ == seq![a] ==> #[trigger] cell_spec(Json::Array(items), tb) == "["@ + cell_spec(a, tb) + "]"@,
        forall|items: Vec<Json>|
            items@ == seq![a, b] ==> #[trigger] cell_spec(Json::Array(items), tb) == "["@ + cell_spec(a, tb) + " "@
                + cell_spec(b, tb) + "]"@,
        forall|items: Vec<Json>|
            items@ == seq![a, b] && !(a is Object) ==> #[trigger] render_spec(Json::Array(items), tb) == cell_spec(
                a,
                tb,
            ) + "\n"@ + cell_spec(b, tb) + "\n"@,
{
    reveal_strlit("[");
    reveal_strlit("]");
    reveal_strlit("[]");
    assert("["@ + "]"@ =~= "[]"@);
    assert forall|items: Vec<Json>| items@ == seq![a, b] implies #[trigger] cell_spec(Json::Array(items), tb) == "["@
        + cell_spec(a, tb) + " "@ + cell_spec(b, tb) + "]"@ by {
        assert(items@.drop_last() =~= seq![a]);
        assert(cells_text(seq![a], tb) == cell_spec(a, tb));
        assert(cells_text(items@, tb) == cells_text(seq![a], tb) + " "@ + cell_spec(b, tb));
        assert("["@ + cells_text(items@, tb) + "]"@ =~= "["@ + cell_spec(a, tb) + " "@ + cell_spec(b, tb) + "]"@);
    }
    assert forall|items: Vec<Json>| items@ == seq![a, b] && !(a is Object) implies #[trigger] render_spec(
        Json::Array(items),
        tb,
    ) == cell_spec(a, tb) + "\n"@ + cell_spec(b, tb) + "\n"@ by {
        assert(items@.drop_last() =~= seq![a]);
        assert(seq![a].drop_last() =~= Seq::<Json>::empty());
        assert(lines_text(seq![a], tb) == lines_text(Seq::<Json>::empty(), tb) + cell_spec(a, tb) + "\n"@);
        assert(lines_text(seq![a], tb) =~= cell_spec(a, tb) + "\n"@);
        assert(lines_text(items@, tb) == lines_text(seq![a], tb) + cell_spec(b, tb) + "\n"@);
        assert(items@[0] == a);
        assert(lines_text(items@, tb) =~= cell_spec(a, tb) + "\n"@ + cell_spec(b, tb) + "\n"@);
    }
}

fn shown_of(t: &str, tb: &Vec<NumberShown>) -> (r: String)
    ensures
        r@ == shown_from(t@, tb@, 0),
{
    let mut i: usize = 0;
    while i < tb.len()
        invariant
            i <= tb.len(),
            shown_from(t@, tb@, 0) == shown_from(t@, tb@, i as int),
        decreases tb.len() - i,
    {
        if text::str_eq(tb[i].json.as_str(), t) {
            return text::owned(tb[i].shown.as_str());
        }
        i += 1;
    }
    text::owned(t)
}

/// One table cell or key-value value (see [`cell_spec`]).
pub fn format_cell(v: &Json, tb: &Vec<NumberShown>) -> (r: String)
    ensures
        r@ == cell_spec(*v, tb@),
    decreases v,
{
    proof {
        reveal_strlit("");
    }
    match v {
        Json::Null => String::new(),
        Json::Bool(b) => if *b {
            text::owned("true")
        } else {
            text::owned("false")
        },
        Json::Number(t) => shown_of(t.as_str(), tb),
        Json::Str(s) => text::owned(s.as_str()),
        Json::Array(items) => {
            let mut out = text::owned("[");
            let ghost start = out@;
            let mut i: usize = 0;
            assert(items@.take(0) =~= Seq::<Json>::empty());
            while i < items.len()
                invariant
                    i <= items.len(),
                    *v == Json::Array(*items),
                    out@ == start + cells_text(items@.take(i as int), tb@),
                decreases items.len() - i,
            {
                proof {
                    assert((*v)->Array_0 == *items);
                    assert(decreases_to!(*v => (*v)->Array_0));
                    assert(decreases_to!(*items => items[i as int]));
                    assert(items@.take(i + 1).drop_last() =~= items@.take(i as int));
                    assert(items@.take(i + 1).last() == items@[i as int]);
                }
                if i > 0 {
                    text::append(&mut out, " ");
                }
                let c = format_cell(&items[i], tb);
                text::append(&mut out, c.as_str());
                i += 1;
            }
            assert(items@.take(items.len() as int) =~= items@);
            text::append(&mut out, "]");
            out
        },
        Json::Object(_) => json::compact_json(v),
    }
}

/// The UTF-8 byte count of a text.
fn byte_len_of(s: &str) -> (r: u128)
    ensures
        r == byte_len(s@),
        r <= 4 * s@.len(),
{
    let cs = text::chars_of(s);
    let mut acc: u128 = 0;
    let mut i: usize = 0;
    while i < cs.len()
        invariant
            i <= cs.len(),
            cs@ == s@,
            acc == byte_len(s@.take(i as int)),
            acc <= 4 * i,
        decreases cs.len() - i,
    {
        assert(s@.take(i + 1).drop_last() =~= s@.take(i as int));
        let c = cs[i];
        let u = c as u32;
        let w: u128 = if u < 0x80 {
            1
        } else if u < 0x800 {
            2
        } else if u < 0x10000 {
            3
        } else {
            4
        };
        acc = acc + w;
        i += 1;
    }
    assert(s@.take(cs.len() as int) =~= s@);
    acc
}

/// Appends `s` padded with spaces to `width` characters.
fn append_pad(out: &mut String, s: &str, width: u128)
    ensures
        final(out)@ == old(out)@ + text::pad_right(s@, width as nat),
{
    let cs = text::chars_of(s);
    text::append(out, s);
    let n = cs.len() as u128;
    if n < width {
        let mut k: u128 = n;
        let ghost base = out@;
        while k < width
            invariant
                n <= k <= width,
                n == s@.len(),
                out@ == base + text::spaces((k - n) as nat),
            decreases width - k,
        {
            text::push_char(out, ' ');
            assert(text::spaces((k + 1 - n) as nat) =~= text::spaces((k - n) as nat).push(' '));
            k += 1;
        }
    }
}

fn kv_render(ms: &Vec<(String, Json)>, tb: &Vec<NumberShown>) -> (r: String)
    ensures
        r@ == kv_lines(ms@, key_width(ms@, ms.len() as int), tb@, ms.len() as int),
{
    let mut w: u128 = 0;
    let mut i: usize = 0;
    while i < ms.len()
        invariant
            i <= ms.len(),
            w == key_width(ms@, i as int),
        decreases ms.len() - i,
    {
        let k = byte_len_of(ms[i].0.as_str());
        if k > w {
            w = k;
        }
        i += 1;
    }
    let mut out = String::new();
    let mut j: usize = 0;
    while j < ms.len()
        invariant
            j <= ms.len(),
            w == key_width(ms@, ms.len() as int),
            out@ == kv_lines(ms@, w as nat, tb@, j as int),
        decreases ms.len() - j,
    {
        append_pad(&mut out, ms[j].0.as_str(), w);
        text::append(&mut out, "  ");
        let c = format_cell(&ms[j].1, tb);
        text::append(&mut out, c.as_str());
        text::append(&mut out, "\n");
        j += 1;
    }
    out
}

fn cell_at_of(item: &Json, k: &str, tb: &Vec<NumberShown>) -> (r: String)
    ensures
        r@ == cell_at(*item, k@, tb@),
{
    proof {
        reveal_strlit("");
    }
    match item {
        Json::Object(ms) => match json::get_member(ms, k) {
            Some(x) => format_cell(x, tb),
            None => String::new(),
        },
        _ => format_cell(item, tb),
    }
}

fn append_row(out: &mut String, cells: &Vec<String>, widths: &Vec<u128>)
    requires
        cells.len() == widths.len(),
    ensures
        final(out)@ == old(out)@ + row_text(text::views(cells@), widths@.map_values(|w: u128| w as nat)),
{
    let ghost cv = text::views(cells@);
    let ghost wv = widths@.map_values(|w: u128| w as nat);
    let ghost base = out@;
    let mut i: usize = 0;
    while i < cells.len()
        invariant
            i <= cells.len(),
            cells.len() == widths.len(),
            cv == text::views(cells@),
            wv == widths@.map_values(|w: u128| w as nat),
            out@ == base + padded_cells(cv, wv, i as int),
        decreases cells.len() - i,
    {
        if i > 0 {
            text::append(out, "  ");
        }
        append_pad(out, cells[i].as_str(), widths[i]);
        assert(cv[i as int] == cells@[i as int]@);
        assert(wv[i as int] == widths@[i as int] as nat);
        i += 1;
    }
    text::append(out, "\n");
}

fn table_render(ms0: &Vec<(String, Json)>, items: &Vec<Json>, tb: &Vec<NumberShown>) -> (r: String)
    ensures
        r@ == table_text(ms0@, items@, tb@),
{
    let ghost keys = keys_of(ms0@);
    let ghost ws = widths_of(keys, items@, tb@);
    if ms0.len() == 0 {
        return String::new();
    }
    let mut names: Vec<String> = Vec::new();
    let mut widths: Vec<u128> = Vec::new();
    let mut j: usize = 0;
    while j < ms0.len()
        invariant
            j <= ms0.len(),
            keys == keys_of(ms0@),
            ws == widths_of(keys, items@, tb@),
            names.len() == j,
            widths.len() == j,
            forall|x: int| 0 <= x < j ==> (#[trigger] names@[x])@ == keys[x],
            forall|x: int| 0 <= x < j ==> #[trigger] widths@[x] as nat == ws[x],
        decreases ms0.len() - j,
    {
        let k = ms0[j].0.as_str();
        assert(keys[j as int] == k@);
        let mut w: u128 = byte_len_of(k);
        let mut i: usize = 0;
        while i < items.len()
            invariant
                i <= items.len(),
                j < ms0.len(),
                keys == keys_of(ms0@),
                keys[j as int] == k@,
                w == col_width(k@, items@, tb@, i as int),
            decreases items.len() - i,
        {
            let is_obj = match &items[i] {
                Json::Object(_) => true,
                _ => false,
            };
            if is_obj {
                let c = cell_at_of(&items[i], k, tb);
                let b = byte_len_of(c.as_str());
                if b > w {
                    w = b;
                }
            }
            i += 1;
        }
        names.push(text::owned(k));
        widths.push(w);
        j += 1;
    }
    let ghost wv = widths@.map_values(|w: u128| w as nat);
    assert(wv =~= ws);
    assert(text::views(names@) =~= keys);
    let mut out = String::new();
    append_row(&mut out, &names, &widths);
    let mut rule: Vec<String> = Vec::new();
    let mut d: usize = 0;
    while d < widths.len()
        invariant
            d <= widths.len(),
            rule.len() == d,
            forall|x: int| 0 <= x < d ==> (#[trigger] rule@[x])@ == Seq::new(widths@[x] as nat, |i: int| '-'),
        decreases widths.len() - d,
    {
        let mut s = String::new();
        let mut c: u128 = 0;
        while c < widths[d]
            invariant
                c <= widths@[d as int],
                d < widths.len(),
                s@ == Seq::new(c as nat, |i: int| '-'),
            decreases widths@[d as int] - c,
        {
            text::push_char(&mut s, '-');
            assert(s@ =~= Seq::new((c + 1) as nat, |i: int| '-'));
            c += 1;
        }
        rule.push(s);
        d += 1;
    }
    assert(text::views(rule@) =~= dashes(ws));
    append_row(&mut out, &rule, &widths);
    let ghost head = out@;
    let mut i: usize = 0;
    while i < items.len()
        invariant
            i <= items.len(),
            names.len() == widths.len(),
            text::views(names@) == keys,
            widths@.map_values(|w: u128| w as nat) == ws,
            out@ == head + rows_text(items@, keys, ws, tb@, i as int),
        decreases items.len() - i,
    {
        let mut cells: Vec<String> = Vec::new();
        let mut j: usize = 0;
        while j < names.len()
            invariant
                j <= names.len(),
                i < items.len(),
                names.len() == widths.len(),
                text::views(names@) == keys,
                cells.len() == j,
                forall|x: int| 0 <= x < j ==> (#[trigger] cells@[x])@ == cell_at(items@[i as int], keys[x], tb@),
            decreases names.len() - j,
        {
            assert(keys[j as int] == names@[j as int]@);
            let c = cell_at_of(&items[i], names[j].as_str(), tb);
            cells.push(c);
            j += 1;
        }
        assert(text::views(cells@) =~= keys.map_values(|k: Seq<char>| cell_at(items@[i as int], k, tb@)));
        append_row(&mut out, &cells, &widths);
        i += 1;
    }
    out
}

/// Renders a result as text (see [`render_spec`]); `tb` gives the display
/// text of numbers whose display differs from their JSON text.
pub fn render_text(v: &Json, tb: &Vec<NumberShown>) -> (r: String)
    ensures
        r@ == render_spec(*v, tb@),
{
    match v {
        Json::Null => String::new(),
        Json::Array(items) => {
            if items.len() == 0 {
                return String::new();
            }
            match &items[0] {
                Json::Object(ms0) => table_render(ms0, items, tb),
                _ => {
                    let mut out = String::new();
                    let mut i: usize = 0;
                    while i < items.len()
                        invariant
                            i <= items.len(),
                            out@ == lines_text(items@.take(i as int), tb@),
                        decreases items.len() - i,
                    {
                        assert(items@.take(i + 1).drop_last() =~= items@.take(i as int));
                        let c = format_cell(&items[i], tb);
                        text::append(&mut out, c.as_str());
                        text::append(&mut out, "\n");
                        i += 1;
                    }
                    assert(items@.take(items.len() as int) =~= items@);
                    out
                },
            }
        },
        Json::Object(ms) => kv_render(ms, tb),
        _ => {
            let mut out = format_cell(v, tb);
            text::append(&mut out, "\n");
            out
        },
    }
}

} // verus!
