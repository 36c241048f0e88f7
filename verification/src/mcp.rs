//! The decisions of the MCP frontend: the known protocol revisions, the
//! options of the `mcp` mode, the parsing of its arguments and the
//! registration-time checks of pinned versions.
use std::time::Duration;
use vstd::prelude::*;
use crate::blocks::{self, Block, BlockView};
use crate::builtins;
use crate::cli::render::{self, NumberShown};
use crate::json::Json;
use crate::errors;
use crate::scalar;
use crate::text;

verus! {

/// The protocol revisions known to the SDK, from 2024-11-05 to 2026-07-28.
pub const PROTOCOL_V2024_11_05: &'static str = "2024-11-05";

pub const PROTOCOL_V2025_03_26: &'static str = "2025-03-26";

pub const PROTOCOL_V2025_06_18: &'static str = "2025-06-18";

pub const PROTOCOL_V2025_11_25: &'static str = "2025-11-25";

/// The latest revision.
pub const PROTOCOL_V2026_07_28: &'static str = "2026-07-28";

/// The full set in negotiation preference order, newest first.
pub const DEFAULT_VERSIONS: [&'static str; 5] = [
    PROTOCOL_V2026_07_28,
    PROTOCOL_V2025_11_25,
    PROTOCOL_V2025_06_18,
    PROTOCOL_V2025_03_26,
    PROTOCOL_V2024_11_05,
];

/// The known revisions as texts, newest first.
pub open spec fn default_versions_spec() -> Seq<Seq<char>> {
    seq!["2026-07-28"@, "2025-11-25"@, "2025-06-18"@, "2025-03-26"@, "2024-11-05"@]
}

/// Whether a text names a known revision.
pub open spec fn known_version(v: Seq<char>) -> bool {
    default_versions_spec().contains(v)
}

/// Options of the MCP frontend; the zero value serves every known revision.
#[derive(Debug)]
pub struct Options {
    /// Server implementation name and version (defaults: binary name, "0.0.0").
    pub name: String,
    pub version: String,
    /// Pinned revisions (a subset of the known ones), in preference order;
    /// empty = all.
    pub versions: Vec<String>,
    /// Instructions shown to clients after initialization.
    pub instructions: String,
    /// Listen address of the http transport; default ":8080".
    pub addr: String,
    /// Streamable HTTP answers `application/json` instead of event streams.
    pub json_response: bool,
    /// Stateless streamable HTTP.
    pub stateless: bool,
    /// Bearer tokens checked on the http transport; empty = no check.
    pub bearer_tokens: Vec<String>,
    /// Idle-session expiry of streamable HTTP.
    pub session_timeout: Duration,
    /// CORS allow-list of the http transport.
    pub cors_origins: Vec<String>,
}

/// The plain-value view of [`Options`].
pub struct OptionsView {
    pub name: Seq<char>,
    pub version: Seq<char>,
    pub versions: Seq<Seq<char>>,
    pub instructions: Seq<char>,
    pub addr: Seq<char>,
    pub json_response: bool,
    pub stateless: bool,
    pub bearer_tokens: Seq<Seq<char>>,
    pub session_timeout: Duration,
    pub cors_origins: Seq<Seq<char>>,
}

impl View for Options {
    type V = OptionsView;

    open spec fn view(&self) -> OptionsView {
        OptionsView {
            name: self.name@,
            version: self.version@,
            versions: text::views(self.versions@),
            instructions: self.instructions@,
            addr: self.addr@,
            json_response: self.json_response,
            stateless: self.stateless,
            bearer_tokens: text::views(self.bearer_tokens@),
            session_timeout: self.session_timeout,
            cors_origins: text::views(self.cors_origins@),
        }
    }
}

/// The view of the zero options.
pub open spec fn default_options() -> OptionsView {
    OptionsView {
        name: Seq::empty(),
        version: Seq::empty(),
        versions: Seq::empty(),
        instructions: Seq::empty(),
        addr: Seq::empty(),
        json_response: false,
        stateless: false,
        bearer_tokens: Seq::empty(),
        session_timeout: scalar::nanos_duration(0),
        cors_origins: Seq::empty(),
    }
}

impl Default for Options {
    fn default() -> (o: Options)
        ensures
            o@ == default_options(),
    {
        let o = Options {
            name: String::new(),
            version: String::new(),
            versions: Vec::new(),
            instructions: String::new(),
            addr: String::new(),
            json_response: false,
            stateless: false,
            bearer_tokens: Vec::new(),
            session_timeout: scalar::duration_from_nanos(0),
            cors_origins: Vec::new(),
        };
        assert(o@.versions == Seq::<Seq<char>>::empty());
        assert(o@.bearer_tokens == Seq::<Seq<char>>::empty());
        assert(o@.cors_origins == Seq::<Seq<char>>::empty());
        o
    }
}

impl Clone for Options {
    fn clone(&self) -> (o: Options)
        ensures
            o@ == self@,
    {
        Options {
            name: self.name.clone(),
            version: self.version.clone(),
            versions: text::clone_strings(&self.versions),
            instructions: self.instructions.clone(),
            addr: self.addr.clone(),
            json_response: self.json_response,
            stateless: self.stateless,
            bearer_tokens: text::clone_strings(&self.bearer_tokens),
            session_timeout: self.session_timeout,
            cors_origins: text::clone_strings(&self.cors_origins),
        }
    }
}

/// Presets (such as the global `--xyz.*` values) as defaults: fields the
/// command line set win, the booleans are or-ed.
pub open spec fn merge_defaults_spec(o: OptionsView, base: OptionsView) -> OptionsView {
    OptionsView {
        addr: if o.addr.len() == 0 { base.addr } else { o.addr },
        name: if o.name.len() == 0 { base.name } else { o.name },
        version: if o.version.len() == 0 { base.version } else { o.version },
        versions: if o.versions.len() == 0 { base.versions } else { o.versions },
        instructions: if o.instructions.len() == 0 { base.instructions } else { o.instructions },
        bearer_tokens: if o.bearer_tokens.len() == 0 { base.bearer_tokens } else { o.bearer_tokens },
        session_timeout: if scalar::duration_nanos(o.session_timeout) == 0 {
            base.session_timeout
        } else {
            o.session_timeout
        },
        cors_origins: if o.cors_origins.len() == 0 { base.cors_origins } else { o.cors_origins },
        json_response: o.json_response || base.json_response,
        stateless: o.stateless || base.stateless,
    }
}

impl Options {
    /// Takes `base` as defaults for the fields that are still unset.
    pub fn merge_defaults(&mut self, base: &Options)
        ensures
            final(self)@ == merge_defaults_spec(old(self)@, base@),
    {
        if self.addr.as_str().is_empty() {
            self.addr = base.addr.clone();
        }
        if self.name.as_str().is_empty() {
            self.name = base.name.clone();
        }
        if self.version.as_str().is_empty() {
            self.version = base.version.clone();
        }
        if self.versions.len() == 0 {
            self.versions = text::clone_strings(&base.versions);
        }
        if self.instructions.as_str().is_empty() {
            self.instructions = base.instructions.clone();
        }
        if self.bearer_tokens.len() == 0 {
            self.bearer_tokens = text::clone_strings(&base.bearer_tokens);
        }
        if scalar::duration_as_nanos(self.session_timeout) == 0 {
            self.session_timeout = base.session_timeout;
        }
        if self.cors_origins.len() == 0 {
            self.cors_origins = text::clone_strings(&base.cors_origins);
        }
        self.json_response = self.json_response || base.json_response;
        self.stateless = self.stateless || base.stateless;
    }
}

/// The implementation name and version that the server announces: the
/// options' values, else the binary name and "0.0.0".
pub fn impl_name(opts: &Options, bin: &str) -> (r: (String, String))
    ensures
        r.0@ == (if opts.name@.len() == 0 { bin@ } else { opts.name@ }),
        r.1@ == (if opts.version@.len() == 0 { "0.0.0"@ } else { opts.version@ }),
{
    let name = if opts.name.as_str().is_empty() {
        text::owned(bin)
    } else {
        opts.name.clone()
    };
    let version = if opts.version.as_str().is_empty() {
        text::owned("0.0.0")
    } else {
        opts.version.clone()
    };
    (name, version)
}

// ------------------------------------------------------------ tools
/// A tool's description: the summary and the description joined by a
/// blank line when both are given, else whichever is.
pub open spec fn tool_description_spec(summary: Seq<char>, description: Seq<char>) -> Seq<char> {
    if summary.len() > 0 && description.len() > 0 {
        summary + "\n\n"@ + description
    } else if description.len() > 0 {
        description
    } else {
        summary
    }
}

/// The description of a command's tool.
pub fn tool_description(summary: &str, description: &str) -> (r: String)
    ensures
        r@ == tool_description_spec(summary@, description@),
{
    if !summary.is_empty() && !description.is_empty() {
        let mut s = text::owned(summary);
        text::append(&mut s, "\n\n");
        text::append(&mut s, description);
        s
    } else if !description.is_empty() {
        text::owned(description)
    } else {
        text::owned(summary)
    }
}

/// The behaviour hints of a tool.
#[derive(Debug)]
pub struct Annotations {
    pub title: Option<String>,
    pub read_only: Option<bool>,
    pub destructive: Option<bool>,
    pub idempotent: Option<bool>,
    pub open_world: Option<bool>,
}

/// Tool hints as plain values.
pub struct AnnotationsView {
    pub title: Option<Seq<char>>,
    pub read_only: Option<bool>,
    pub destructive: Option<bool>,
    pub idempotent: Option<bool>,
    pub open_world: Option<bool>,
}

impl View for Annotations {
    type V = AnnotationsView;

    open spec fn view(&self) -> AnnotationsView {
        AnnotationsView {
            title: match self.title {
                Some(t) => Some(t@),
                None => None,
            },
            read_only: self.read_only,
            destructive: self.destructive,
            idempotent: self.idempotent,
            open_world: self.open_world,
        }
    }
}

/// The place of the first colon from `i` on (none: the length).
pub open spec fn colon_at(s: Seq<char>, i: int) -> int
    decreases s.len() - i,
{
    if i < 0 || i >= s.len() {
        s.len() as int
    } else if s[i] == ':' {
        i
    } else {
        colon_at(s, i + 1)
    }
}

/// The key of an annotation (before the first colon, trimmed, ASCII
/// lower case) and its value (after it, trimmed).
pub open spec fn annotation_parts(a: Seq<char>) -> (Seq<char>, Seq<char>) {
    let c = colon_at(a, 0);
    if c < a.len() {
        (text::lower(text::trim(a.take(c))), text::trim(a.skip(c + 1)))
    } else {
        (text::lower(text::trim(a)), Seq::empty())
    }
}

/// What one annotation sets; an unknown one sets nothing.
pub open spec fn annotation_step(h: AnnotationsView, a: Seq<char>) -> AnnotationsView {
    let (k, v) = annotation_parts(a);
    if k == "read"@ {
        AnnotationsView { read_only: Some(true), ..h }
    } else if k == "write"@ {
        AnnotationsView { read_only: Some(false), ..h }
    } else if k == "destructive"@ {
        AnnotationsView { destructive: Some(true), ..h }
    } else if k == "idempotent"@ {
        AnnotationsView { idempotent: Some(true), ..h }
    } else if k == "openworld"@ {
        AnnotationsView { open_world: Some(true), ..h }
    } else if k == "title"@ {
        AnnotationsView { title: Some(v), ..h }
    } else {
        h
    }
}

/// The hints the annotations set, in order (a later one wins).
pub open spec fn annotations_spec(v: Seq<Seq<char>>) -> AnnotationsView
    decreases v.len(),
{
    if v.len() == 0 {
        AnnotationsView { title: None, read_only: None, destructive: None, idempotent: None, open_world: None }
    } else {
        annotation_step(annotations_spec(v.drop_last()), v.last())
    }
}

fn annotation_split(a: &str) -> (r: (String, String))
    ensures
        (r.0@, r.1@) == annotation_parts(a@),
{
    let cs = text::chars_of(a);
    let mut i: usize = 0;
    while i < cs.len()
        invariant
            i <= cs.len(),
            cs@ == a@,
            colon_at(a@, 0) == colon_at(a@, i as int),
        ensures
            i <= cs.len(),
            colon_at(a@, 0) == colon_at(a@, i as int),
            i < cs.len() ==> cs@[i as int] == ':',
        decreases cs.len() - i,
    {
        if cs[i] == ':' {
            break;
        }
        i += 1;
    }
    if i < cs.len() {
        assert(colon_at(a@, i as int) == i as int);
        let k = text::string_of(text::slice_of(cs.as_slice(), 0, i).as_slice());
        let v = text::string_of(text::slice_of(cs.as_slice(), i + 1, cs.len()).as_slice());
        assert(a@.subrange(0, i as int) == a@.take(i as int));
        assert(a@.subrange(i + 1, a@.len() as int) == a@.skip(i + 1));
        let kt = text::str_trim(k.as_str());
        let kl = text::to_ascii_lower(kt.as_str());
        (kl, text::str_trim(v.as_str()))
    } else {
        let kt = text::str_trim(a);
        (text::to_ascii_lower(kt.as_str()), String::new())
    }
}

/// The behaviour hints of a tool from a command's annotations (such as
/// `read`, `destructive`, `title:Create user`); none without any.
pub fn parse_annotations(anns: &Vec<String>) -> (r: Option<Annotations>)
    ensures
        match r {
            None => anns@.len() == 0,
            Some(h) => anns@.len() > 0 && h@ == annotations_spec(text::views(anns@)),
        },
{
    if anns.len() == 0 {
        return None;
    }
    let ghost vs = text::views(anns@);
    let mut h = Annotations { title: None, read_only: None, destructive: None, idempotent: None, open_world: None };
    let mut i: usize = 0;
    while i < anns.len()
        invariant
            i <= anns.len(),
            vs == text::views(anns@),
            h@ == annotations_spec(vs.take(i as int)),
        decreases anns.len() - i,
    {
        proof {
            assert(vs.take(i + 1).drop_last() == vs.take(i as int));
            assert(vs.take(i + 1).last() == anns@[i as int]@);
            reveal_strlit("read");
            reveal_strlit("write");
            reveal_strlit("destructive");
            reveal_strlit("idempotent");
            reveal_strlit("openworld");
            reveal_strlit("title");
        }
        let (k, v) = annotation_split(anns[i].as_str());
        let key = k.as_str();
        if text::str_eq(key, "read") {
            h.read_only = Some(true);
        } else if text::str_eq(key, "write") {
            h.read_only = Some(false);
        } else if text::str_eq(key, "destructive") {
            h.destructive = Some(true);
        } else if text::str_eq(key, "idempotent") {
            h.idempotent = Some(true);
        } else if text::str_eq(key, "openworld") {
            h.open_world = Some(true);
        } else if text::str_eq(key, "title") {
            h.title = Some(v);
        }
        i += 1;
    }
    assert(vs.take(anns.len() as int) == vs);
    Some(h)
}

// ------------------------------------------------------------ arguments
/// The state of the `mcp` argument scan.
pub struct ArgScan {
    pub opts: OptionsView,
    pub transport: Seq<char>,
    pub positional: nat,
}

/// The state before the first argument.
pub open spec fn scan_start() -> ArgScan {
    ArgScan { opts: default_options(), transport: Seq::empty(), positional: 0 }
}

/// The end of the scan: a transport is required and at most one
/// positional argument is accepted (the message names the last argument).
pub open spec fn finish_args(args: Seq<Seq<char>>, st: ArgScan) -> Result<
    (Seq<char>, OptionsView),
    Seq<char>,
> {
    if st.transport.len() == 0 {
        Err("missing transport"@)
    } else if st.positional > 1 {
        Err("unexpected argument "@ + text::quoted(
            if args.len() > 0 { args.last() } else { Seq::empty() },
        ))
    } else {
        Ok((st.transport, st.opts))
    }
}

/// The value of `--name=value` (every leading `--name=` removed).
pub open spec fn assigned(a: Seq<char>, p: Seq<char>) -> Seq<char> {
    text::trim_start_all(a, p)
}

/// What one argument does to the scan.
pub enum ScanStep {
    /// The argument is consumed alone.
    One(ArgScan),
    /// The argument and the next one (its value) are consumed.
    Two(ArgScan),
    /// A valued flag without its value: the scan ends here.
    Stop,
    /// The arguments are refused with this message.
    Fail(Seq<char>),
}

/// The effect of argument `i`: `--json-response`, `--stateless`, and the
/// valued flags `--addr`, `--versions`, `--bearer`, `--session-timeout`,
/// `--cors`, `--name`, `--server-version` (each also as `--flag=value`);
/// any other dash argument is an unknown flag; the first plain argument
/// is the transport.
pub open spec fn scan_step(args: Seq<Seq<char>>, i: nat, st: ArgScan) -> ScanStep {
    let a = args[i as int];
    let o = st.opts;
    let has_next = i + 1 < args.len();
    let next = args[i + 1 as int];
    if a == "--json-response"@ {
        ScanStep::One(ArgScan { opts: OptionsView { json_response: true, ..o }, ..st })
    } else if a == "--stateless"@ {
        ScanStep::One(ArgScan { opts: OptionsView { stateless: true, ..o }, ..st })
    } else if text::is_prefix("--addr="@, a) {
        ScanStep::One(ArgScan { opts: OptionsView { addr: assigned(a, "--addr="@), ..o }, ..st })
    } else if a == "--addr"@ {
        if !has_next {
            ScanStep::Stop
        } else {
            ScanStep::Two(ArgScan { opts: OptionsView { addr: next, ..o }, ..st })
        }
    } else if text::is_prefix("--versions="@, a) {
        ScanStep::One(
            ArgScan {
                opts: OptionsView { versions: text::comma_list(assigned(a, "--versions="@)), ..o },
                ..st
            },
        )
    } else if a == "--versions"@ {
        if !has_next {
            ScanStep::Stop
        } else {
            ScanStep::Two(
                ArgScan { opts: OptionsView { versions: text::comma_list(next), ..o }, ..st },
            )
        }
    } else if a == "--bearer"@ {
        if !has_next {
            ScanStep::Stop
        } else {
            ScanStep::Two(
                ArgScan {
                    opts: OptionsView {
                        bearer_tokens: builtins::merge_spec(o.bearer_tokens, next),
                        ..o
                    },
                    ..st
                },
            )
        }
    } else if text::is_prefix("--bearer="@, a) {
        ScanStep::One(
            ArgScan {
                opts: OptionsView {
                    bearer_tokens: builtins::merge_spec(o.bearer_tokens, assigned(a, "--bearer="@)),
                    ..o
                },
                ..st
            },
        )
    } else if a == "--session-timeout"@ {
        if !has_next {
            ScanStep::Stop
        } else {
            match scalar::duration_spec(next) {
                Ok(n) => ScanStep::Two(
                    ArgScan {
                        opts: OptionsView {
                            session_timeout: scalar::nanos_duration(n as u64),
                            ..o
                        },
                        ..st
                    },
                ),
                Err(e) => ScanStep::Fail(
                    "invalid --session-timeout "@ + text::quoted(next) + ": "@
                        + scalar::duration_message(next, e),
                ),
            }
        }
    } else if text::is_prefix("--session-timeout="@, a) {
        let v = assigned(a, "--session-timeout="@);
        match scalar::duration_spec(v) {
            Ok(n) => ScanStep::One(
                ArgScan {
                    opts: OptionsView { session_timeout: scalar::nanos_duration(n as u64), ..o },
                    ..st
                },
            ),
            Err(e) => ScanStep::Fail(
                "invalid --session-timeout: "@ + scalar::duration_message(v, e),
            ),
        }
    } else if a == "--cors"@ {
        if !has_next {
            ScanStep::Stop
        } else {
            ScanStep::Two(
                ArgScan {
                    opts: OptionsView {
                        cors_origins: builtins::merge_spec(o.cors_origins, next),
                        ..o
                    },
                    ..st
                },
            )
        }
    } else if text::is_prefix("--cors="@, a) {
        ScanStep::One(
            ArgScan {
                opts: OptionsView {
                    cors_origins: builtins::merge_spec(o.cors_origins, assigned(a, "--cors="@)),
                    ..o
                },
                ..st
            },
        )
    } else if text::is_prefix("--name="@, a) {
        ScanStep::One(ArgScan { opts: OptionsView { name: assigned(a, "--name="@), ..o }, ..st })
    } else if a == "--name"@ {
        if !has_next {
            ScanStep::Stop
        } else {
            ScanStep::Two(ArgScan { opts: OptionsView { name: next, ..o }, ..st })
        }
    } else if text::is_prefix("--server-version="@, a) {
        ScanStep::One(
            ArgScan { opts: OptionsView { version: assigned(a, "--server-version="@), ..o }, ..st },
        )
    } else if a == "--server-version"@ {
        if !has_next {
            ScanStep::Stop
        } else {
            ScanStep::Two(ArgScan { opts: OptionsView { version: next, ..o }, ..st })
        }
    } else if text::is_prefix("-"@, a) {
        ScanStep::Fail("unknown flag "@ + text::quoted(a))
    } else {
        ScanStep::One(
            ArgScan {
                transport: if st.positional == 0 { a } else { st.transport },
                positional: st.positional + 1,
                ..st
            },
        )
    }
}

/// Scanning the `mcp` arguments from position `i` to the end.
pub open spec fn scan_args(args: Seq<Seq<char>>, i: nat, st: ArgScan) -> Result<
    (Seq<char>, OptionsView),
    Seq<char>,
>
    decreases args.len() - i,
{
    if i >= args.len() {
        finish_args(args, st)
    } else {
        match scan_step(args, i, st) {
            ScanStep::One(s) => scan_args(args, i + 1, s),
            ScanStep::Two(s) => scan_args(args, i + 2, s),
            ScanStep::Stop => finish_args(args, st),
            ScanStep::Fail(m) => Err(m),
        }
    }
}

/// The message of an argument error.
fn internal(m: String) -> (e: errors::Error)
    ensures
        e.kind_spec() == errors::Kind::Internal && e.class_spec() == errors::Kind::Internal,
        e.kind_spec() == errors::Kind::Internal,
        m@.len() > 0 ==> e.text_spec() == m@,
{
    errors::Error::new(errors::Kind::Internal, m)
}

/// What [`scan_one`] did.
enum Moved {
    One,
    Two,
    Stop,
    Fail(String),
}

/// The scan state as plain values.
pub open spec fn scan_state(opts: OptionsView, transport: Seq<char>, positional: nat) -> ArgScan {
    ArgScan { opts, transport, positional }
}

/// A message that starts with a fixed word is not empty.
proof fn lemma_prefixed_nonempty(p: Seq<char>, rest: Seq<char>)
    requires
        p.len() > 0,
    ensures
        (p + rest).len() > 0,
{
}

/// Applies argument `i` to the scan state.
#[verifier::rlimit(40)]
fn scan_one(
    args: &[String],
    i: usize,
    opts: &mut Options,
    transport: &mut String,
    positional: &mut usize,
) -> (r: Moved)
    requires
        i < args.len(),
        *old(positional) <= i,
    ensures
        ({
            let va = text::views(args@);
            let st0 = scan_state(old(opts)@, old(transport)@, *old(positional) as nat);
            let st1 = scan_state(final(opts)@, final(transport)@, *final(positional) as nat);
            match r {
                Moved::One => scan_step(va, i as nat, st0) == ScanStep::One(st1)
                    && *final(positional) <= i + 1,
                Moved::Two => scan_step(va, i as nat, st0) == ScanStep::Two(st1)
                    && *final(positional) <= i + 2 && i + 1 < args.len(),
                Moved::Stop => scan_step(va, i as nat, st0) == ScanStep::Stop && st1 == st0,
                Moved::Fail(m) => scan_step(va, i as nat, st0) == ScanStep::Fail(m@) && m@.len()
                    > 0,
            }
        }),
{
    let ghost va = text::views(args@);
    let a = args[i].as_str();
    assert(va[i as int] == a@);
    let has_next = i + 1 < args.len();
    if has_next {
        assert(va[i + 1] == args@[i + 1]@);
    }
    proof {
        reveal_strlit("--addr=");
        reveal_strlit("--versions=");
        reveal_strlit("--bearer=");
        reveal_strlit("--session-timeout=");
        reveal_strlit("--cors=");
        reveal_strlit("--name=");
        reveal_strlit("--server-version=");
        reveal_strlit("-");
        reveal_strlit("unknown flag ");
        reveal_strlit("invalid --session-timeout ");
        reveal_strlit("invalid --session-timeout: ");
    }
    if text::str_eq(a, "--json-response") {
        opts.json_response = true;
        Moved::One
    } else if text::str_eq(a, "--stateless") {
        opts.stateless = true;
        Moved::One
    } else if text::str_starts_with(a, "--addr=") {
        opts.addr = text::trim_start_matches(a, "--addr=");
        Moved::One
    } else if text::str_eq(a, "--addr") {
        if !has_next {
            Moved::Stop
        } else {
            opts.addr = args[i + 1].clone();
            Moved::Two
        }
    } else if text::str_starts_with(a, "--versions=") {
        let v = text::trim_start_matches(a, "--versions=");
        opts.versions = builtins::split_versions(v.as_str());
        Moved::One
    } else if text::str_eq(a, "--versions") {
        if !has_next {
            Moved::Stop
        } else {
            opts.versions = builtins::split_versions(args[i + 1].as_str());
            Moved::Two
        }
    } else if text::str_eq(a, "--bearer") {
        if !has_next {
            Moved::Stop
        } else {
            let cur = text::clone_strings(&opts.bearer_tokens);
            opts.bearer_tokens = builtins::merge_tokens(cur, args[i + 1].as_str());
            Moved::Two
        }
    } else if text::str_starts_with(a, "--bearer=") {
        let v = text::trim_start_matches(a, "--bearer=");
        let cur = text::clone_strings(&opts.bearer_tokens);
        opts.bearer_tokens = builtins::merge_tokens(cur, v.as_str());
        Moved::One
    } else if text::str_eq(a, "--session-timeout") {
        if !has_next {
            Moved::Stop
        } else {
            let v = args[i + 1].as_str();
            match scalar::parse_duration(v) {
                Ok(d) => {
                    opts.session_timeout = d;
                    Moved::Two
                },
                Err(e) => {
                    let mut m = text::owned("invalid --session-timeout ");
                    let q = text::quote(v);
                    text::append(&mut m, q.as_str());
                    text::append(&mut m, ": ");
                    text::append(&mut m, e.as_str());
                    proof {
                        let de = choose|de: scalar::DurationError|
                            scalar::duration_spec(v@) == Err::<nat, scalar::DurationError>(de)
                                && e@ == scalar::duration_message(v@, de);
                        assert(m@ == "invalid --session-timeout "@ + (text::quoted(v@) + ": "@
                            + scalar::duration_message(v@, de)));
                        lemma_prefixed_nonempty(
                            "invalid --session-timeout "@,
                            text::quoted(v@) + ": "@ + scalar::duration_message(v@, de),
                        );
                    }
                    Moved::Fail(m)
                },
            }
        }
    } else if text::str_starts_with(a, "--session-timeout=") {
        let v = text::trim_start_matches(a, "--session-timeout=");
        match scalar::parse_duration(v.as_str()) {
            Ok(d) => {
                opts.session_timeout = d;
                Moved::One
            },
            Err(e) => {
                let mut m = text::owned("invalid --session-timeout: ");
                text::append(&mut m, e.as_str());
                proof {
                    let de = choose|de: scalar::DurationError|
                        scalar::duration_spec(v@) == Err::<nat, scalar::DurationError>(de)
                            && e@ == scalar::duration_message(v@, de);
                    lemma_prefixed_nonempty(
                        "invalid --session-timeout: "@,
                        scalar::duration_message(v@, de),
                    );
                }
                Moved::Fail(m)
            },
        }
    } else if text::str_eq(a, "--cors") {
        if !has_next {
            Moved::Stop
        } else {
            let cur = text::clone_strings(&opts.cors_origins);
            opts.cors_origins = builtins::merge_tokens(cur, args[i + 1].as_str());
            Moved::Two
        }
    } else if text::str_starts_with(a, "--cors=") {
        let v = text::trim_start_matches(a, "--cors=");
        let cur = text::clone_strings(&opts.cors_origins);
        opts.cors_origins = builtins::merge_tokens(cur, v.as_str());
        Moved::One
    } else if text::str_starts_with(a, "--name=") {
        opts.name = text::trim_start_matches(a, "--name=");
        Moved::One
    } else if text::str_eq(a, "--name") {
        if !has_next {
            Moved::Stop
        } else {
            opts.name = args[i + 1].clone();
            Moved::Two
        }
    } else if text::str_starts_with(a, "--server-version=") {
        opts.version = text::trim_start_matches(a, "--server-version=");
        Moved::One
    } else if text::str_eq(a, "--server-version") {
        if !has_next {
            Moved::Stop
        } else {
            opts.version = args[i + 1].clone();
            Moved::Two
        }
    } else if text::str_starts_with(a, "-") {
        let mut m = text::owned("unknown flag ");
        let q = text::quote(a);
        text::append(&mut m, q.as_str());
        proof {
            lemma_prefixed_nonempty("unknown flag "@, text::quoted(a@));
        }
        Moved::Fail(m)
    } else {
        if *positional == 0 {
            *transport = text::owned(a);
        }
        *positional = *positional + 1;
        Moved::One
    }
}

/// Parses the `mcp` mode arguments: `<transport>` and flags.
pub fn parse_args(args: &[String]) -> (r: Result<(String, Options), errors::Error>)
    ensures
        match r {
            Ok((t, o)) => scan_args(text::views(args@), 0, scan_start()) == Ok::<
                (Seq<char>, OptionsView),
                Seq<char>,
            >((t@, o@)),
            Err(e) => e.kind_spec() == errors::Kind::Internal && e.class_spec() == errors::Kind::Internal && e.kind_spec() == errors::Kind::Internal
                && scan_args(
                text::views(args@),
                0,
                scan_start(),
            ) == Err::<(Seq<char>, OptionsView), Seq<char>>(e.text_spec()),
        },
{
    let ghost va = text::views(args@);
    let mut opts = Options::default();
    let mut transport = String::new();
    let mut positional: usize = 0;
    let mut i: usize = 0;
    let mut stop = false;
    while i < args.len() && !stop
        invariant
            i <= args.len(),
            va == text::views(args@),
            positional <= i,
            ({
                let st = scan_state(opts@, transport@, positional as nat);
                &&& !stop ==> scan_args(va, 0, scan_start()) == scan_args(va, i as nat, st)
                &&& stop ==> scan_args(va, 0, scan_start()) == finish_args(va, st)
            }),
        decreases args.len() - i + (if stop { 0int } else { 1int }),
    {
        match scan_one(args, i, &mut opts, &mut transport, &mut positional) {
            Moved::One => {
                i += 1;
            },
            Moved::Two => {
                i += 2;
            },
            Moved::Stop => {
                stop = true;
            },
            Moved::Fail(m) => {
                return Err(internal(m));
            },
        }
    }
    proof {
        reveal_strlit("missing transport");
        reveal_strlit("unexpected argument ");
    }
    if transport.as_str().is_empty() {
        return Err(internal(text::owned("missing transport")));
    }
    if positional > 1 {
        let last = if args.len() > 0 {
            args[args.len() - 1].as_str()
        } else {
            ""
        };
        proof {
            reveal_strlit("");
            if args.len() > 0 {
                assert(va.last() == args@[args.len() - 1]@);
            }
        }
        let mut m = text::owned("unexpected argument ");
        let q = text::quote(last);
        text::append(&mut m, q.as_str());
        proof {
            lemma_prefixed_nonempty("unexpected argument "@, text::quoted(last@));
        }
        return Err(internal(m));
    }
    Ok((transport, opts))
}

// ------------------------------------------------------------ versions
/// The `--versions` check: every entry non-empty and known; the first bad
/// entry decides the message.
pub open spec fn versions_check(vs: Seq<Seq<char>>) -> Option<Seq<char>>
    decreases vs.len(),
{
    if vs.len() == 0 {
        None
    } else {
        match versions_check(vs.drop_last()) {
            Some(m) => Some(m),
            None => if vs.last().len() == 0 {
                Some("mcp: empty protocol version in --versions"@)
            } else if !known_version(vs.last()) {
                Some("mcp: unknown protocol version "@ + text::quoted(vs.last())
                    + " (known: 2026-07-28, 2025-11-25, 2025-06-18, 2025-03-26, 2024-11-05)"@)
            } else {
                None
            },
        }
    }
}

fn is_known_version(v: &str) -> (r: bool)
    ensures
        r == known_version(v@),
{
    let r = text::str_eq(v, PROTOCOL_V2026_07_28) || text::str_eq(v, PROTOCOL_V2025_11_25)
        || text::str_eq(v, PROTOCOL_V2025_06_18) || text::str_eq(v, PROTOCOL_V2025_03_26)
        || text::str_eq(v, PROTOCOL_V2024_11_05);
    proof {
        let d = default_versions_spec();
        if known_version(v@) {
            let k = choose|k: int| 0 <= k < d.len() && d[k] == v@;
            assert(k == 0 || k == 1 || k == 2 || k == 3 || k == 4);
        }
        if r {
            if v@ == "2026-07-28"@ {
                assert(d[0] == v@);
            } else if v@ == "2025-11-25"@ {
                assert(d[1] == v@);
            } else if v@ == "2025-06-18"@ {
                assert(d[2] == v@);
            } else if v@ == "2025-03-26"@ {
                assert(d[3] == v@);
            } else {
                assert(d[4] == v@);
            }
        }
    }
    r
}

/// Registration-time check of `--versions`: non-empty, known entries.
pub fn validate_versions(versions: &[String]) -> (r: Result<(), errors::Error>)
    ensures
        match r {
            Ok(()) => versions_check(text::views(versions@)) is None,
            Err(e) => e.kind_spec() == errors::Kind::Internal && e.class_spec() == errors::Kind::Internal && versions_check(
                text::views(versions@),
            ) == Some(e.text_spec()),
        },
{
    let ghost vs = text::views(versions@);
    let mut i: usize = 0;
    while i < versions.len()
        invariant
            i <= versions.len(),
            vs == text::views(versions@),
            versions_check(vs.take(i as int)) is None,
        decreases versions.len() - i,
    {
        let v = versions[i].as_str();
        proof {
            assert(vs.take(i + 1).drop_last() == vs.take(i as int));
            assert(vs.take(i + 1).last() == v@);
        }
        if v.is_empty() {
            proof {
                reveal_strlit("mcp: empty protocol version in --versions");
                lemma_versions_check_prefix(vs, i + 1);
            }
            return Err(internal(text::owned("mcp: empty protocol version in --versions")));
        }
        if !is_known_version(v) {
            let mut m = text::owned("mcp: unknown protocol version ");
            let q = text::quote(v);
            text::append(&mut m, q.as_str());
            text::append(
                &mut m,
                " (known: 2026-07-28, 2025-11-25, 2025-06-18, 2025-03-26, 2024-11-05)",
            );
            proof {
                reveal_strlit("mcp: unknown protocol version ");
                lemma_versions_check_prefix(vs, i + 1);
            }
            return Err(internal(m));
        }
        i += 1;
    }
    assert(vs.take(versions.len() as int) == vs);
    Ok(())
}

proof fn lemma_versions_check_prefix(vs: Seq<Seq<char>>, k: int)
    requires
        0 <= k <= vs.len(),
        versions_check(vs.take(k)) is Some,
    ensures
        versions_check(vs) == versions_check(vs.take(k)),
    decreases vs.len() - k,
{
    if k < vs.len() {
        assert(vs.take(k + 1).drop_last() == vs.take(k));
        lemma_versions_check_prefix(vs, k + 1);
    } else {
        assert(vs.take(k) == vs);
    }
}

/// Whether a transport can serve any of the pinned revisions: without
/// pins, always; `http` serves every revision but 2026-07-28 (which needs
/// the stateless mode); other transports serve all.
pub open spec fn transport_serves(transport: Seq<char>, versions: Seq<Seq<char>>, stateless: bool) -> bool {
    ||| versions.len() == 0
    ||| transport != "http"@
    ||| stateless
    ||| exists|k: int| 0 <= k < versions.len() && versions[k] != "2026-07-28"@
}

/// The capability check of pinned revisions against a transport.
pub fn validate_transport_versions(transport: &str, opts: &Options) -> (r: Result<(), errors::Error>)
    ensures
        match r {
            Ok(()) => transport_serves(transport@, opts@.versions, opts.stateless),
            Err(e) => !transport_serves(transport@, opts@.versions, opts.stateless) && e.kind_spec() == errors::Kind::Internal && e.class_spec() == errors::Kind::Internal && e.text_spec() == "transport "@ + text::quoted(
                transport@,
            ) + " cannot serve any of the requested versions "@ + text::debug_list(opts@.versions),
        },
{
    if opts.versions.len() == 0 {
        return Ok(());
    }
    let is_http = text::str_eq(transport, "http");
    let mut i: usize = 0;
    while i < opts.versions.len()
        invariant
            i <= opts.versions.len(),
            is_http == (transport@ == "http"@),
            forall|k: int| 0 <= k < i ==> opts@.versions[k] == "2026-07-28"@,
            i > 0 ==> is_http && !opts.stateless,
        decreases opts.versions.len() - i,
    {
        let v = opts.versions[i].as_str();
        assert(opts@.versions[i as int] == v@);
        if is_http {
            if !text::str_eq(v, PROTOCOL_V2026_07_28) || opts.stateless {
                return Ok(());
            }
        } else {
            return Ok(());
        }
        i += 1;
    }
    let mut m = text::owned("transport ");
    let q = text::quote(transport);
    text::append(&mut m, q.as_str());
    text::append(&mut m, " cannot serve any of the requested versions ");
    let l = text::debug_list_of(&opts.versions);
    text::append(&mut m, l.as_str());
    proof {
        reveal_strlit("transport ");
    }
    Err(internal(m))
}


// ------------------------------------------------------------ tool results
/// The answer to a tool call, as plain values: its content blocks, the
/// structured content (the result itself), and whether it reports an
/// error.
#[derive(Debug)]
pub struct ToolResult {
    pub content: Vec<Block>,
    pub structured: Option<Json>,
    pub is_error: bool,
}

/// The text an error reports to a tool's caller: its cause's text where
/// it wraps one, its own otherwise.
pub open spec fn tool_error_text(e: errors::Error) -> Seq<char> {
    match e.cause_spec() {
        Some(c) => c.text_spec(),
        None => e.text_spec(),
    }
}

/// Whether `r` answers a tool call that gave `out`: a result holding the
/// reserved block envelope passes its blocks on as the content; another
/// result becomes one text block, its rendering without trailing
/// whitespace; either way the result is also the structured content.  A
/// failure becomes one text block with the error's text (see
/// [`tool_error_text`]) and is flagged as an error, with no structured
/// content.
pub open spec fn tool_result_ok(out: Result<Json, errors::Error>, tb: Seq<NumberShown>, r: ToolResult) -> bool {
    match out {
        Ok(v) => {
            &&& !r.is_error
            &&& r.structured == Some(v)
            &&& match blocks::extract_spec(v) {
                Some(bs) => blocks::block_views(r.content@) == bs,
                None => blocks::block_views(r.content@) == seq![
                    BlockView::Text(text::trim_end(render::render_spec(v, tb))),
                ],
            }
        },
        Err(e) => {
            &&& r.is_error
            &&& r.structured is None
            &&& blocks::block_views(r.content@) == seq![BlockView::Text(tool_error_text(e))]
        },
    }
}

/// Builds the answer to a tool call from what the command gave; `tb`
/// gives the display text of numbers for the rendering.
pub fn tool_result(out: Result<Json, errors::Error>, tb: &Vec<NumberShown>) -> (r: ToolResult)
    ensures
        tool_result_ok(out, tb@, r),
{
    match out {
        Ok(v) => match blocks::extract(&v) {
            Some(bs) => ToolResult { content: bs, structured: Some(v), is_error: false },
            None => {
                let full = render::render_text(&v, tb);
                let t = text::str_trim_end(full.as_str());
                let content = vec![Block::Text { text: t }];
                assert(blocks::block_views(content@) =~= seq![BlockView::Text(t@)]);
                ToolResult { content, structured: Some(v), is_error: false }
            },
        },
        Err(e) => {
            let msg = match e.cause() {
                Some(c) => c.to_text(),
                None => e.to_text(),
            };
            let content = vec![Block::Text { text: msg }];
            assert(blocks::block_views(content@) =~= seq![BlockView::Text(msg@)]);
            ToolResult { content, structured: None, is_error: true }
        },
    }
}

} // verus!
