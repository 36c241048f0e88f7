//! Checks on command definitions, and the definition-time hints that
//! refine the bindings of an argument struct's top-level fields.
use vstd::prelude::*;
use crate::cli::tree::CliHints;
use crate::errors;
use crate::field::{self, FieldMeta};
use crate::json::{self, Json, JsonView};
use crate::text;

verus! {

/// An ASCII letter or digit.
pub open spec fn ascii_alnum(c: char) -> bool {
    ('a' <= c && c <= 'z') || ('A' <= c && c <= 'Z') || ('0' <= c && c <= '9')
}

/// A valid entry name: `^[A-Za-z0-9][A-Za-z0-9._-]{0,127}$` (compatible
/// with MCP tool names; it also constrains CLI subcommands and HTTP
/// route segments).
pub open spec fn entry_name_ok(name: Seq<char>) -> bool {
    &&& name.len() > 0
    &&& ascii_alnum(name[0])
    &&& name.len() <= 128
    &&& forall|k: int| 0 <= k < name.len() ==> ascii_alnum(#[trigger] name[k]) || name[k] == '.'
        || name[k] == '_' || name[k] == '-'
}

/// Checks an entry name.
pub fn check_entry_name(name: &str) -> (r: Result<(), errors::Error>)
    ensures
        match r {
            Ok(()) => entry_name_ok(name@),
            Err(e) => !entry_name_ok(name@) && e.kind_spec() == errors::Kind::Internal && e.class_spec() == errors::Kind::Internal
                && e.kind_spec() == errors::Kind::Internal && e.text_spec() == "name must match ^[A-Za-z0-9][A-Za-z0-9._-]{0,127}$, got "@
                + text::quoted(name@),
        },
{
    let cs = text::chars_of(name);
    let mut ok = cs.len() > 0 && cs.len() <= 128;
    if ok {
        let c = cs[0];
        ok = ('a' <= c && c <= 'z') || ('A' <= c && c <= 'Z') || ('0' <= c && c <= '9');
    }
    let mut i: usize = 0;
    while i < cs.len()
        invariant
            i <= cs.len(),
            cs@ == name@,
            ok ==> (forall|k: int| 0 <= k < i ==> ascii_alnum(#[trigger] cs@[k]) || cs@[k] == '.'
                || cs@[k] == '_' || cs@[k] == '-'),
            ok ==> cs.len() > 0 && cs.len() <= 128 && ascii_alnum(cs@[0]),
            !ok ==> !entry_name_ok(name@),
        decreases cs.len() - i,
    {
        let c = cs[i];
        let good = ('a' <= c && c <= 'z') || ('A' <= c && c <= 'Z') || ('0' <= c && c <= '9')
            || c == '.' || c == '_' || c == '-';
        if !good {
            ok = false;
        }
        i += 1;
    }
    if !ok {
        let mut m = text::owned("name must match ^[A-Za-z0-9][A-Za-z0-9._-]{0,127}$, got ");
        let q = text::quote(name);
        text::append(&mut m, q.as_str());
        proof {
            reveal_strlit("name must match ^[A-Za-z0-9][A-Za-z0-9._-]{0,127}$, got ");
        }
        return Err(errors::new(errors::Kind::Internal, m));
    }
    Ok(())
}


// ------------------------------------------------------------ hints
/// The CLI configuration of one field given at definition time; a zero
/// value keeps what the field's tag says.
#[derive(Debug)]
pub struct CliFieldHint {
    /// A one-character short name, such as `a`.
    pub shorthand: Option<String>,
    pub positional: bool,
    pub hidden: bool,
    /// Hidden from the CLI frontend.
    pub skip: bool,
    /// Read from this environment variable when not given.
    pub env_var: Option<String>,
    /// A CLI-only default.
    pub default: Option<Json>,
}

/// The HTTP configuration of one field given at definition time.
#[derive(Debug)]
pub struct HTTPFieldHint {
    /// Empty, query, path, header, form or body.
    pub location: String,
    /// The name on the wire (usually a header's).
    pub name: Option<String>,
    pub default: Option<Json>,
}

/// The MCP configuration of one field given at definition time; it also
/// replaces the default in the input schema.
#[derive(Debug)]
pub struct MCPFieldHint {
    pub default: Option<Json>,
}

/// The HTTP configuration of one command.
#[derive(Debug)]
pub struct HTTPHints {
    pub method: String,
    /// The route template, such as `/users/{name}`.
    pub path: String,
    /// A per-request timeout; zero keeps the frontend's default.
    pub timeout: std::time::Duration,
    /// Removed from the HTTP frontend altogether.
    pub skip: bool,
    /// Field hints, by a top-level field's JSON or Rust name.
    pub fields: Vec<(String, HTTPFieldHint)>,
}

/// The MCP configuration of one command.
#[derive(Debug)]
pub struct MCPHints {
    /// Such as `read`, `write`, `destructive`, `title:Create user`.
    pub annotations: Vec<String>,
    /// Removed from the MCP frontend altogether.
    pub skip: bool,
    /// Field hints, by a top-level field's JSON or Rust name.
    pub fields: Vec<(String, MCPFieldHint)>,
}

/// An optional text as a plain value.
pub open spec fn opt_text(o: Option<String>) -> Option<Seq<char>> {
    match o {
        Some(s) => Some(s@),
        None => None,
    }
}

/// An optional JSON value as a plain value.
pub open spec fn opt_json(o: Option<Json>) -> Option<JsonView> {
    match o {
        Some(j) => Some(j@),
        None => None,
    }
}

/// The frontend bindings of a field, as plain values.
pub struct BindingView {
    pub shorthand: Option<char>,
    pub positional: bool,
    pub hidden: bool,
    pub cli_skip: bool,
    pub env_var: Option<Seq<char>>,
    pub cli_default: Option<JsonView>,
    pub location: Seq<char>,
    pub http_name: Seq<char>,
    pub http_default: Option<JsonView>,
    pub mcp_default: Option<JsonView>,
}

/// The bindings of a field.
pub open spec fn binding(f: FieldMeta) -> BindingView {
    BindingView {
        shorthand: f.cli.shorthand,
        positional: f.cli.positional,
        hidden: f.cli.hidden,
        cli_skip: f.cli.skip,
        env_var: opt_text(f.cli.env_var),
        cli_default: opt_json(f.cli.default),
        location: f.http.location@,
        http_name: f.http.name@,
        http_default: opt_json(f.http.default),
        mcp_default: opt_json(f.mcp.default),
    }
}

/// The bindings of a list of fields.
pub open spec fn bindings(fs: Seq<FieldMeta>) -> Seq<BindingView> {
    fs.map_values(|f: FieldMeta| binding(f))
}

/// Everything of `a` but its bindings is that of `b`.
pub open spec fn same_but_bindings(a: FieldMeta, b: FieldMeta) -> bool {
    a == FieldMeta { cli: a.cli, http: a.http, mcp: a.mcp, ..b }
}

/// A CLI field hint as plain values.
pub struct CliHintView {
    pub shorthand: Option<Seq<char>>,
    pub positional: bool,
    pub hidden: bool,
    pub skip: bool,
    pub env_var: Option<Seq<char>>,
    pub default: Option<JsonView>,
}

impl View for CliFieldHint {
    type V = CliHintView;

    open spec fn view(&self) -> CliHintView {
        CliHintView {
            shorthand: opt_text(self.shorthand),
            positional: self.positional,
            hidden: self.hidden,
            skip: self.skip,
            env_var: opt_text(self.env_var),
            default: opt_json(self.default),
        }
    }
}

/// An HTTP field hint as plain values.
pub struct HttpHintView {
    pub location: Seq<char>,
    pub name: Option<Seq<char>>,
    pub default: Option<JsonView>,
}

impl View for HTTPFieldHint {
    type V = HttpHintView;

    open spec fn view(&self) -> HttpHintView {
        HttpHintView { location: self.location@, name: opt_text(self.name), default: opt_json(self.default) }
    }
}

/// The `{:?}` form of a hint's key, as the messages quote it.
pub open spec fn field_prefix(channel: Seq<char>, key: Seq<char>) -> Seq<char> {
    channel + " field "@ + text::quoted(key) + ": "@
}

/// What a CLI hint does to a field's bindings; only a non-empty hint
/// field changes one.
pub open spec fn merge_cli(b: BindingView, h: CliHintView) -> BindingView {
    BindingView {
        shorthand: match h.shorthand {
            Some(s) => Some(s[0]),
            None => b.shorthand,
        },
        positional: b.positional || h.positional,
        hidden: b.hidden || h.hidden,
        cli_skip: b.cli_skip || h.skip,
        env_var: match h.env_var {
            Some(e) => Some(e),
            None => b.env_var,
        },
        cli_default: match h.default {
            Some(d) => Some(d),
            None => b.cli_default,
        },
        ..b
    }
}

/// The refusal of a CLI hint: a short name that is not one character.
pub open spec fn cli_hint_error(key: Seq<char>, h: CliHintView) -> Option<Seq<char>> {
    match h.shorthand {
        Some(s) => if s.len() != 1 {
            Some(field_prefix("cli"@, key) + "shorthand must be one character, got "@ + text::quoted(s))
        } else {
            None
        },
        None => None,
    }
}

/// What an HTTP hint does to a field's bindings.
pub open spec fn merge_http(b: BindingView, h: HttpHintView) -> BindingView {
    BindingView {
        location: if h.location.len() > 0 {
            h.location
        } else {
            b.location
        },
        http_name: match h.name {
            Some(n) => n,
            None => b.http_name,
        },
        http_default: match h.default {
            Some(d) => Some(d),
            None => b.http_default,
        },
        ..b
    }
}

/// The refusal of an HTTP hint: an unknown location.
pub open spec fn http_hint_error(key: Seq<char>, h: HttpHintView) -> Option<Seq<char>> {
    if h.location.len() > 0 && !field::http_location_ok(h.location) {
        Some(field_prefix("http"@, key) + "unknown location "@ + text::quoted(h.location)
            + " (want query|path|header|form|body)"@)
    } else {
        None
    }
}

/// What an MCP hint does to a field's bindings.
pub open spec fn merge_mcp(b: BindingView, d: Option<JsonView>) -> BindingView {
    BindingView {
        mcp_default: match d {
            Some(x) => Some(x),
            None => b.mcp_default,
        },
        ..b
    }
}

fn clone_opt_json(o: &Option<Json>) -> (r: Option<Json>)
    ensures
        opt_json(r) == opt_json(*o),
{
    match o {
        Some(j) => Some(json::clone_json(j)),
        None => None,
    }
}

fn clone_opt_text(o: &Option<String>) -> (r: Option<String>)
    ensures
        r == *o,
{
    match o {
        Some(s) => Some(s.clone()),
        None => None,
    }
}

/// Applies a CLI field hint; a zero-valued hint field keeps the tag's
/// binding.
pub fn apply_cli_hint(f: &mut FieldMeta, key: &str, h: &CliFieldHint) -> (r: Result<(), errors::Error>)
    ensures
        match cli_hint_error(key@, h@) {
            Some(m) => r matches Err(e) && e.text_spec() == m && e.kind_spec() == errors::Kind::Internal && e.class_spec() == errors::Kind::Internal
                && *final(f) == *old(f),
            None => r is Ok && binding(*final(f)) == merge_cli(binding(*old(f)), h@)
                && same_but_bindings(*final(f), *old(f)),
        },
{
    let mut short: Option<char> = f.cli.shorthand;
    match &h.shorthand {
        Some(sh) => {
            let cs = text::chars_of(sh.as_str());
            if cs.len() != 1 {
                let mut m = text::owned("cli field ");
                let q = text::quote(key);
                text::append(&mut m, q.as_str());
                text::append(&mut m, ": shorthand must be one character, got ");
                let qs = text::quote(sh.as_str());
                text::append(&mut m, qs.as_str());
                proof {
                    reveal_strlit("cli field ");
                    reveal_strlit(": shorthand must be one character, got ");
                    reveal_strlit("cli");
                    reveal_strlit(" field ");
                    reveal_strlit(": ");
                    reveal_strlit("shorthand must be one character, got ");
                    assert(m@ == field_prefix("cli"@, key@) + "shorthand must be one character, got "@
                        + text::quoted(sh@));
                }
                return Err(errors::new(errors::Kind::Internal, m));
            }
            short = Some(cs[0]);
        },
        None => {},
    }
    f.cli.shorthand = short;
    if h.positional {
        f.cli.positional = true;
    }
    if h.hidden {
        f.cli.hidden = true;
    }
    if h.skip {
        f.cli.skip = true;
    }
    if h.env_var.is_some() {
        f.cli.env_var = clone_opt_text(&h.env_var);
    }
    if h.default.is_some() {
        f.cli.default = clone_opt_json(&h.default);
    }
    Ok(())
}

/// Applies an HTTP field hint.
pub fn apply_http_hint(f: &mut FieldMeta, key: &str, h: &HTTPFieldHint) -> (r: Result<(), errors::Error>)
    ensures
        match http_hint_error(key@, h@) {
            Some(m) => r matches Err(e) && e.text_spec() == m && e.kind_spec() == errors::Kind::Internal && e.class_spec() == errors::Kind::Internal
                && *final(f) == *old(f),
            None => r is Ok && binding(*final(f)) == merge_http(binding(*old(f)), h@)
                && same_but_bindings(*final(f), *old(f)),
        },
{
    let has_loc = !h.location.as_str().is_empty();
    if has_loc && !field::valid_http_location(h.location.as_str()) {
        let mut m = text::owned("http field ");
        let q = text::quote(key);
        text::append(&mut m, q.as_str());
        text::append(&mut m, ": unknown location ");
        let ql = text::quote(h.location.as_str());
        text::append(&mut m, ql.as_str());
        text::append(&mut m, " (want query|path|header|form|body)");
        proof {
            reveal_strlit("http field ");
            reveal_strlit(": unknown location ");
            reveal_strlit("http");
            reveal_strlit(" field ");
            reveal_strlit(": ");
            reveal_strlit("unknown location ");
            assert(m@ == field_prefix("http"@, key@) + "unknown location "@ + text::quoted(h.location@)
                + " (want query|path|header|form|body)"@);
        }
        return Err(errors::new(errors::Kind::Internal, m));
    }
    if has_loc {
        f.http.location = h.location.clone();
    }
    match &h.name {
        Some(n) => {
            f.http.name = n.clone();
        },
        None => {},
    }
    if h.default.is_some() {
        f.http.default = clone_opt_json(&h.default);
    }
    Ok(())
}

/// Applies an MCP field hint (it cannot fail).
pub fn apply_mcp_hint(f: &mut FieldMeta, key: &str, h: &MCPFieldHint) -> (r: Result<(), errors::Error>)
    ensures
        r is Ok,
        binding(*final(f)) == merge_mcp(binding(*old(f)), opt_json(h.default)),
        same_but_bindings(*final(f), *old(f)),
{
    if h.default.is_some() {
        f.mcp.default = clone_opt_json(&h.default);
    }
    Ok(())
}

// ------------------------------------------------------------ merging
/// A hint names field `f` exactly: by its JSON or its Rust name.
pub open spec fn exact_key(f: FieldMeta, key: Seq<char>) -> bool {
    f.json_name@ == key || f.name@ == key
}

/// A hint names field `f` by its Rust name in another ASCII case.
pub open spec fn loose_key(f: FieldMeta, key: Seq<char>) -> bool {
    text::lower(f.name@) == text::lower(key)
}

/// The first field from `i` on that the key names.
pub open spec fn first_hit(fs: Seq<FieldMeta>, key: Seq<char>, i: int, loose: bool) -> Option<int>
    decreases fs.len() - i,
{
    if i < 0 || i >= fs.len() {
        None
    } else if (if loose {
        loose_key(fs[i], key)
    } else {
        exact_key(fs[i], key)
    }) {
        Some(i)
    } else {
        first_hit(fs, key, i + 1, loose)
    }
}

/// The top-level field a hint key names: the first by JSON or Rust
/// name, else the first by Rust name in any ASCII case; a dotted key
/// names none (nested hints are not supported).
pub open spec fn lookup_spec(fs: Seq<FieldMeta>, key: Seq<char>) -> Option<int> {
    if key.contains('.') {
        None
    } else {
        match first_hit(fs, key, 0, false) {
            Some(i) => Some(i),
            None => first_hit(fs, key, 0, true),
        }
    }
}

fn has_char(s: &str, c: char) -> (r: bool)
    ensures
        r == s@.contains(c),
{
    let cs = text::chars_of(s);
    let mut i: usize = 0;
    while i < cs.len()
        invariant
            i <= cs.len(),
            cs@ == s@,
            forall|k: int| 0 <= k < i ==> cs@[k] != c,
        decreases cs.len() - i,
    {
        if cs[i] == c {
            assert(s@[i as int] == c);
            return true;
        }
        i += 1;
    }
    false
}

fn first_hit_of(fields: &[FieldMeta], key: &str, loose: bool) -> (r: Option<usize>)
    ensures
        match r {
            Some(i) => first_hit(fields@, key@, 0, loose) == Some(i as int) && i < fields@.len(),
            None => first_hit(fields@, key@, 0, loose) is None,
        },
{
    let lk = text::to_ascii_lower(key);
    let mut i: usize = 0;
    while i < fields.len()
        invariant
            i <= fields.len(),
            lk@ == text::lower(key@),
            first_hit(fields@, key@, 0, loose) == first_hit(fields@, key@, i as int, loose),
        decreases fields.len() - i,
    {
        let f = &fields[i];
        let hit = if loose {
            let ln = text::to_ascii_lower(f.name.as_str());
            text::str_eq(ln.as_str(), lk.as_str())
        } else {
            text::str_eq(f.json_name.as_str(), key) || text::str_eq(f.name.as_str(), key)
        };
        if hit {
            return Some(i);
        }
        i += 1;
    }
    None
}

/// The index of the top-level field a hint key names.
pub fn lookup_top_field(fields: &[FieldMeta], key: &str) -> (r: Option<usize>)
    ensures
        match r {
            Some(i) => lookup_spec(fields@, key@) == Some(i as int) && i < fields@.len(),
            None => lookup_spec(fields@, key@) is None,
        },
{
    if has_char(key, '.') {
        return None;
    }
    match first_hit_of(fields, key, false) {
        Some(i) => Some(i),
        None => first_hit_of(fields, key, true),
    }
}

/// A hint of any frontend, as plain values.
pub enum HintView {
    Cli(CliHintView),
    Http(HttpHintView),
    Mcp(Option<JsonView>),
}

/// The hints of a command in the order they are applied: CLI, HTTP, MCP.
pub open spec fn all_hints(cli: CliHints, http: HTTPHints, mcp: MCPHints) -> Seq<(Seq<char>, HintView)> {
    cli.fields@.map_values(|p: (String, CliFieldHint)| (p.0@, HintView::Cli(p.1@)))
        + http.fields@.map_values(|p: (String, HTTPFieldHint)| (p.0@, HintView::Http(p.1@)))
        + mcp.fields@.map_values(|p: (String, MCPFieldHint)| (p.0@, HintView::Mcp(opt_json(p.1.default))))
}

/// The frontend a hint belongs to, as the messages name it.
pub open spec fn channel(h: HintView) -> Seq<char> {
    match h {
        HintView::Cli(_) => "cli"@,
        HintView::Http(_) => "http"@,
        HintView::Mcp(_) => "mcp"@,
    }
}

/// The quoted JSON names of the fields, as the messages list them.
pub open spec fn names_text(fs: Seq<FieldMeta>) -> Seq<char> {
    text::join(fs.map_values(|f: FieldMeta| text::quoted(f.json_name@)), ", "@)
}

/// The refusal of a hint whose key names no field.
pub open spec fn unknown_field(ch: Seq<char>, key: Seq<char>, names: Seq<char>) -> Seq<char> {
    field_prefix(ch, key) + "unknown field "@ + text::quoted(key) + " (fields: "@ + names + ")"@
}

/// Applies the hints in order to the fields' bindings; the first
/// refusal stops, with the bindings as they were then.
pub open spec fn hints_pass(fs: Seq<FieldMeta>, hs: Seq<(Seq<char>, HintView)>) -> (Seq<BindingView>, Option<Seq<char>>)
    decreases hs.len(),
{
    if hs.len() == 0 {
        (bindings(fs), None)
    } else {
        let (bs, err) = hints_pass(fs, hs.drop_last());
        if err is Some {
            (bs, err)
        } else {
            let (key, h) = hs.last();
            match lookup_spec(fs, key) {
                None => (bs, Some(unknown_field(channel(h), key, names_text(fs)))),
                Some(i) => match h {
                    HintView::Cli(c) => match cli_hint_error(key, c) {
                        Some(m) => (bs, Some(m)),
                        None => (bs.update(i, merge_cli(bs[i], c)), None),
                    },
                    HintView::Http(x) => match http_hint_error(key, x) {
                        Some(m) => (bs, Some(m)),
                        None => (bs.update(i, merge_http(bs[i], x)), None),
                    },
                    HintView::Mcp(d) => (bs.update(i, merge_mcp(bs[i], d)), None),
                },
            }
        }
    }
}

/// A refusal stays the result of the later hints.
proof fn lemma_pass_err(fs: Seq<FieldMeta>, hs: Seq<(Seq<char>, HintView)>, k: int)
    requires
        0 <= k <= hs.len(),
        hints_pass(fs, hs.take(k)).1 is Some,
    ensures
        hints_pass(fs, hs) == hints_pass(fs, hs.take(k)),
    decreases hs.len() - k,
{
    if k < hs.len() {
        assert(hs.take(k + 1).drop_last() == hs.take(k));
        lemma_pass_err(fs, hs, k + 1);
    } else {
        assert(hs.take(k) == hs);
    }
}

/// The names of the fields for a refusal's message.
fn names_of(fields: &Vec<FieldMeta>) -> (r: String)
    ensures
        r@ == names_text(fields@),
{
    let mut qs: Vec<String> = Vec::new();
    let mut i: usize = 0;
    while i < fields.len()
        invariant
            i <= fields.len(),
            text::views(qs@) == fields@.take(i as int).map_values(|f: FieldMeta| text::quoted(f.json_name@)),
        decreases fields.len() - i,
    {
        let q = text::quote(fields[i].json_name.as_str());
        let ghost before = text::views(qs@);
        qs.push(q);
        assert(text::views(qs@) == before.push(text::quoted(fields@[i as int].json_name@)));
        assert(fields@.take(i + 1).map_values(|f: FieldMeta| text::quoted(f.json_name@))
            == fields@.take(i as int).map_values(|f: FieldMeta| text::quoted(f.json_name@)).push(
            text::quoted(fields@[i as int].json_name@),
        ));
        i += 1;
    }
    assert(fields@.take(fields.len() as int) == fields@);
    text::join_strings(&qs, ", ")
}

/// Fields with the same names are looked up alike.
proof fn lemma_same_names_hit(a: Seq<FieldMeta>, b: Seq<FieldMeta>, key: Seq<char>, i: int, loose: bool)
    requires
        a.len() == b.len(),
        forall|j: int| 0 <= j < a.len() ==> same_but_bindings(#[trigger] a[j], b[j]),
    ensures
        first_hit(a, key, i, loose) == first_hit(b, key, i, loose),
    decreases a.len() - i,
{
    if 0 <= i < a.len() {
        assert(same_but_bindings(a[i], b[i]));
        lemma_same_names_hit(a, b, key, i + 1, loose);
    }
}

proof fn lemma_same_names(a: Seq<FieldMeta>, b: Seq<FieldMeta>, key: Seq<char>)
    requires
        a.len() == b.len(),
        forall|j: int| 0 <= j < a.len() ==> same_but_bindings(#[trigger] a[j], b[j]),
    ensures
        lookup_spec(a, key) == lookup_spec(b, key),
{
    lemma_same_names_hit(a, b, key, 0, false);
    lemma_same_names_hit(a, b, key, 0, true);
}

fn unknown_field_message(ch: &str, key: &str, names: &str) -> (r: String)
    ensures
        r@ == unknown_field(ch@, key@, names@),
{
    let mut m = text::owned(ch);
    text::append(&mut m, " field ");
    let q = text::quote(key);
    text::append(&mut m, q.as_str());
    text::append(&mut m, ": unknown field ");
    text::append(&mut m, q.as_str());
    text::append(&mut m, " (fields: ");
    text::append(&mut m, names);
    text::append(&mut m, ")");
    proof {
        reveal_strlit(": unknown field ");
        reveal_strlit(": ");
        reveal_strlit("unknown field ");
        assert(m@ == unknown_field(ch@, key@, names@));
    }
    m
}

/// The state of applying hints `hs.take(k)` to `cur`, which started as `old`.
pub open spec fn pass_state(old: Seq<FieldMeta>, cur: Seq<FieldMeta>, hs: Seq<(Seq<char>, HintView)>, k: int) -> bool {
    &&& cur.len() == old.len()
    &&& forall|j: int| 0 <= j < cur.len() ==> same_but_bindings(#[trigger] cur[j], old[j])
    &&& hints_pass(old, hs.take(k)) == (bindings(cur), None::<Seq<char>>)
}

/// Merges the definition-time hints of all three frontends into the
/// fields' bindings: CLI hints first, then HTTP, then MCP, each in the
/// order given; a key names a top-level field by JSON or Rust name, and
/// an unknown key or a bad hint is refused.
pub fn apply_hints(
    cmd_name: &str,
    fields: &mut Vec<FieldMeta>,
    cli: &CliHints,
    http: &HTTPHints,
    mcp: &MCPHints,
) -> (r: Result<(), errors::Error>)
    ensures
        final(fields)@.len() == old(fields)@.len(),
        forall|j: int| 0 <= j < old(fields)@.len() ==> same_but_bindings(#[trigger] final(fields)@[j], old(fields)@[j]),
        bindings(final(fields)@) == hints_pass(old(fields)@, all_hints(*cli, *http, *mcp)).0,
        match hints_pass(old(fields)@, all_hints(*cli, *http, *mcp)).1 {
            None => r is Ok,
            Some(m) => r matches Err(e) && e.text_spec() == m && e.kind_spec() == errors::Kind::Internal && e.class_spec() == errors::Kind::Internal,
        },
{
    let ghost old_f = fields@;
    let ghost hs = all_hints(*cli, *http, *mcp);
    let ghost nc: int = cli.fields@.len() as int;
    let ghost nh: int = http.fields@.len() as int;
    let names = names_of(fields);
    proof {
        assert(hs.take(0) == Seq::<(Seq<char>, HintView)>::empty());
    }
    let mut i: usize = 0;
    while i < cli.fields.len()
        invariant
            i <= cli.fields.len(),
            hs == all_hints(*cli, *http, *mcp),
            names@ == names_text(old_f),
            old_f == old(fields)@,
            pass_state(old_f, fields@, hs, i as int),
        decreases cli.fields.len() - i,
    {
        let key = cli.fields[i].0.as_str();
        let h = &cli.fields[i].1;
        proof {
            assert(hs[i as int] == (key@, HintView::Cli(h@)));
            assert(hs.take(i + 1).drop_last() == hs.take(i as int));
            assert(hs.take(i + 1).last() == hs[i as int]);
            lemma_same_names(fields@, old_f, key@);
        }
        match lookup_top_field(fields.as_slice(), key) {
            None => {
                let m = unknown_field_message("cli", key, names.as_str());
                proof {
                    reveal_strlit("cli");
                    lemma_pass_err(old_f, hs, i + 1);
                }
                return Err(errors::new(errors::Kind::Internal, m));
            },
            Some(idx) => {
                let ghost before = fields@;
                let res = apply_cli_hint(&mut fields[idx], key, h);
                match res {
                    Err(e) => {
                        proof {
                            assert(fields@ =~= before);
                            lemma_pass_err(old_f, hs, i + 1);
                        }
                        return Err(e);
                    },
                    Ok(()) => {
                        proof {
                            assert(bindings(fields@) == bindings(before).update(
                                idx as int,
                                merge_cli(bindings(before)[idx as int], h@),
                            ));
                            assert forall|j: int| 0 <= j < fields@.len() implies same_but_bindings(
                                #[trigger] fields@[j],
                                old_f[j],
                            ) by {
                                if j != idx {
                                    assert(fields@[j] == before[j]);
                                }
                            }
                        }
                    },
                }
            },
        }
        i += 1;
    }
    let mut i: usize = 0;
    while i < http.fields.len()
        invariant
            i <= http.fields.len(),
            hs == all_hints(*cli, *http, *mcp),
            nc == cli.fields@.len(),
            names@ == names_text(old_f),
            old_f == old(fields)@,
            pass_state(old_f, fields@, hs, nc + i),
        decreases http.fields.len() - i,
    {
        let key = http.fields[i].0.as_str();
        let h = &http.fields[i].1;
        proof {
            assert(hs[nc + i] == (key@, HintView::Http(h@)));
            assert(hs.take(nc + i + 1).drop_last() == hs.take(nc + i));
            assert(hs.take(nc + i + 1).last() == hs[nc + i]);
            lemma_same_names(fields@, old_f, key@);
        }
        match lookup_top_field(fields.as_slice(), key) {
            None => {
                let m = unknown_field_message("http", key, names.as_str());
                proof {
                    reveal_strlit("http");
                    lemma_pass_err(old_f, hs, nc + i + 1);
                }
                return Err(errors::new(errors::Kind::Internal, m));
            },
            Some(idx) => {
                let ghost before = fields@;
                let res = apply_http_hint(&mut fields[idx], key, h);
                match res {
                    Err(e) => {
                        proof {
                            assert(fields@ =~= before);
                            lemma_pass_err(old_f, hs, nc + i + 1);
                        }
                        return Err(e);
                    },
                    Ok(()) => {
                        proof {
                            assert(bindings(fields@) == bindings(before).update(
                                idx as int,
                                merge_http(bindings(before)[idx as int], h@),
                            ));
                            assert forall|j: int| 0 <= j < fields@.len() implies same_but_bindings(
                                #[trigger] fields@[j],
                                old_f[j],
                            ) by {
                                if j != idx {
                                    assert(fields@[j] == before[j]);
                                }
                            }
                        }
                    },
                }
            },
        }
        i += 1;
    }
    let mut i: usize = 0;
    while i < mcp.fields.len()
        invariant
            i <= mcp.fields.len(),
            hs == all_hints(*cli, *http, *mcp),
            nc == cli.fields@.len(),
            nh == http.fields@.len(),
            names@ == names_text(old_f),
            old_f == old(fields)@,
            pass_state(old_f, fields@, hs, nc + nh + i),
        decreases mcp.fields.len() - i,
    {
        let key = mcp.fields[i].0.as_str();
        let h = &mcp.fields[i].1;
        proof {
            assert(hs[nc + nh + i] == (key@, HintView::Mcp(opt_json(h.default))));
            assert(hs.take(nc + nh + i + 1).drop_last() == hs.take(nc + nh + i));
            assert(hs.take(nc + nh + i + 1).last() == hs[nc + nh + i]);
            lemma_same_names(fields@, old_f, key@);
        }
        match lookup_top_field(fields.as_slice(), key) {
            None => {
                let m = unknown_field_message("mcp", key, names.as_str());
                proof {
                    reveal_strlit("mcp");
                    lemma_pass_err(old_f, hs, nc + nh + i + 1);
                }
                return Err(errors::new(errors::Kind::Internal, m));
            },
            Some(idx) => {
                let ghost before = fields@;
                let _ = apply_mcp_hint(&mut fields[idx], key, h);
                proof {
                    assert(bindings(fields@) == bindings(before).update(
                        idx as int,
                        merge_mcp(bindings(before)[idx as int], opt_json(h.default)),
                    ));
                    assert forall|j: int| 0 <= j < fields@.len() implies same_but_bindings(
                        #[trigger] fields@[j],
                        old_f[j],
                    ) by {
                        if j != idx {
                            assert(fields@[j] == before[j]);
                        }
                    }
                }
            },
        }
        i += 1;
    }
    proof {
        assert(hs.take((nc + nh + mcp.fields@.len()) as int) == hs);
    }
    let _ = cmd_name;
    Ok(())
}

/// A definition error of command `name`, as registration reports it.
pub open spec fn definition_error(name: Seq<char>, cause: Seq<char>) -> Seq<char> {
    "spec: command "@ + text::quoted(name) + ": "@ + cause
}

fn definition_failure(name: &str, e: &errors::Error) -> (r: errors::Error)
    ensures
        r.kind_spec() == e.kind_spec(),
        r.class_spec() == e.kind_spec(),
        r.text_spec() == definition_error(name@, e.text_spec()),
{
    let mut m = text::owned("spec: command ");
    let q = text::quote(name);
    text::append(&mut m, q.as_str());
    text::append(&mut m, ": ");
    let t = e.to_text();
    text::append(&mut m, t.as_str());
    proof {
        reveal_strlit("spec: command ");
        reveal_strlit(": ");
    }
    errors::new(e.kind(), m)
}

/// The fields of command `name` as registration prepares them: the name
/// is checked first, then the argument struct's analysis (`meta`) must
/// have succeeded, then the hints are merged into the fields.
pub fn entry_fields(
    name: &str,
    meta: Result<Vec<FieldMeta>, errors::Error>,
    cli: &CliHints,
    http: &HTTPHints,
    mcp: &MCPHints,
) -> (r: Result<Vec<FieldMeta>, errors::Error>)
    ensures
        !entry_name_ok(name@) ==> (r matches Err(e) && e.text_spec() == definition_error(
            name@,
            "name must match ^[A-Za-z0-9][A-Za-z0-9._-]{0,127}$, got "@ + text::quoted(name@),
        ) && e.kind_spec() == errors::Kind::Internal && e.class_spec() == errors::Kind::Internal),
        entry_name_ok(name@) ==> match meta {
            Err(m) => r matches Err(e) && e.text_spec() == definition_error(name@, m.text_spec())
                && e.class_spec() == m.kind_spec(),
            Ok(fs) => {
                let (bs, err) = hints_pass(fs@, all_hints(*cli, *http, *mcp));
                match err {
                    Some(m) => r matches Err(e) && e.text_spec() == m && e.kind_spec() == errors::Kind::Internal && e.class_spec() == errors::Kind::Internal,
                    None => r matches Ok(out) && out@.len() == fs@.len() && bindings(out@) == bs && forall|
                        j: int,
                    | 0 <= j < fs@.len() ==> same_but_bindings(#[trigger] out@[j], fs@[j]),
                }
            },
        },
{
    match check_entry_name(name) {
        Err(e) => {
            return Err(definition_failure(name, &e));
        },
        Ok(()) => {},
    }
    let mut fields = match meta {
        Err(e) => {
            return Err(definition_failure(name, &e));
        },
        Ok(fs) => fs,
    };
    match apply_hints(name, &mut fields, cli, http, mcp) {
        Err(e) => Err(e),
        Ok(()) => Ok(fields),
    }
}

/// A hint that sets nothing leaves a field's bindings as its tags made
/// them: zero-valued hint fields keep the tag's binding.
pub proof fn lemma_zero_hints_keep_bindings(b: BindingView)
    ensures
        merge_cli(
            b,
            CliHintView {
                shorthand: None,
                positional: false,
                hidden: false,
                skip: false,
                env_var: None,
                default: None,
            },
        ) == b,
        merge_http(b, HttpHintView { location: Seq::empty(), name: None, default: None }) == b,
        merge_mcp(b, None) == b,
{
}

/// Hints only add: a binding that a tag switched on stays on, and a value
/// the hint leaves empty stays what it was.
pub proof fn lemma_cli_hint_only_adds(b: BindingView, h: CliHintView)
    ensures
        b.positional ==> merge_cli(b, h).positional,
        b.hidden ==> merge_cli(b, h).hidden,
        b.cli_skip ==> merge_cli(b, h).cli_skip,
        h.env_var is None ==> merge_cli(b, h).env_var == b.env_var,
        h.default is None ==> merge_cli(b, h).cli_default == b.cli_default,
        h.shorthand is None ==> merge_cli(b, h).shorthand == b.shorthand,
{
}

// ------------------------------------------------------------ defaults
/// A frontend with its own field defaults.
#[derive(Debug, Clone, Copy, PartialEq, Eq, Structural)]
pub enum Frontend {
    Cli,
    Http,
    Mcp,
}

/// The default of field `f` that frontend `c` sets.
pub open spec fn frontend_default(f: FieldMeta, c: Frontend) -> Option<JsonView> {
    match c {
        Frontend::Cli => opt_json(f.cli.default),
        Frontend::Http => opt_json(f.http.default),
        Frontend::Mcp => opt_json(f.mcp.default),
    }
}

/// The frontend-only defaults of the top-level fields, keyed by JSON name
/// (skipped fields have none).
pub open spec fn defaults_spec(fs: Seq<FieldMeta>, c: Frontend) -> Seq<(Seq<char>, JsonView)>
    decreases fs.len(),
{
    if fs.len() == 0 {
        Seq::empty()
    } else {
        let m = defaults_spec(fs.drop_last(), c);
        let f = fs.last();
        if f.skip {
            m
        } else {
            match frontend_default(f, c) {
                Some(d) => crate::cli::app::map_set(m, f.json_name@, d),
                None => m,
            }
        }
    }
}

fn frontend_default_of(f: &FieldMeta, c: Frontend) -> (r: Option<Json>)
    ensures
        opt_json(r) == frontend_default(*f, c),
{
    match c {
        Frontend::Cli => clone_opt_json(&f.cli.default),
        Frontend::Http => clone_opt_json(&f.http.default),
        Frontend::Mcp => clone_opt_json(&f.mcp.default),
    }
}

/// The defaults frontend `c` injects before invoking a command: one per
/// bindable top-level field that has one, keyed by JSON name.
pub fn transport_defaults(fields: &Vec<FieldMeta>, c: Frontend) -> (r: Vec<(String, Json)>)
    ensures
        crate::cli::app::arg_views(r@) == defaults_spec(fields@, c),
{
    let mut out: Vec<(String, Json)> = Vec::new();
    let mut i: usize = 0;
    while i < fields.len()
        invariant
            i <= fields.len(),
            crate::cli::app::arg_views(out@) == defaults_spec(fields@.take(i as int), c),
        decreases fields.len() - i,
    {
        let f = &fields[i];
        proof {
            assert(fields@.take(i + 1).drop_last() == fields@.take(i as int));
            assert(fields@.take(i + 1).last() == *f);
        }
        if !f.skip {
            match frontend_default_of(f, c) {
                Some(d) => {
                    crate::cli::app::map_put(&mut out, f.json_name.clone(), d);
                },
                None => {},
            }
        }
        i += 1;
    }
    assert(fields@.take(fields.len() as int) == fields@);
    out
}

/// The CLI-only defaults (they win over the global tag defaults, which
/// decoding fills in).
pub fn cli_defaults(fields: &Vec<FieldMeta>) -> (r: Vec<(String, Json)>)
    ensures
        crate::cli::app::arg_views(r@) == defaults_spec(fields@, Frontend::Cli),
{
    transport_defaults(fields, Frontend::Cli)
}

/// The HTTP-only defaults.
pub fn http_defaults(fields: &Vec<FieldMeta>) -> (r: Vec<(String, Json)>)
    ensures
        crate::cli::app::arg_views(r@) == defaults_spec(fields@, Frontend::Http),
{
    transport_defaults(fields, Frontend::Http)
}

/// The MCP-only defaults (they also replace the schema's default).
pub fn mcp_defaults(fields: &Vec<FieldMeta>) -> (r: Vec<(String, Json)>)
    ensures
        crate::cli::app::arg_views(r@) == defaults_spec(fields@, Frontend::Mcp),
{
    transport_defaults(fields, Frontend::Mcp)
}

} // verus!
