//! Field descriptors: the static description of an argument field that
//! the derive macro generates (tag strings and type shape), the shapes a
//! field can have, and the parsing of its `cli` and `http` tags.
use vstd::prelude::*;
use crate::errors;
use crate::json::{self, Json, JsonView};
use crate::scalar::{self, FloatReading};
use crate::text;
use crate::validate;

verus! {

/// The type shape of a field.
#[derive(Debug, Clone, Copy, PartialEq, Eq, Structural)]
pub enum FieldKind {
    String,
    Bool,
    I8,
    I16,
    I32,
    I64,
    U8,
    U16,
    U32,
    U64,
    F32,
    F64,
    /// `std::time::Duration`.
    Duration,
    /// A UTC date-time.
    Time,
    /// `Vec<u8>`.
    Bytes,
    /// `Option<T>`.
    Ptr,
    /// `Vec<T>`.
    Slice,
    /// A nested struct or a named newtype.
    Struct,
    /// An adjacently tagged union (an enum field).
    Union,
}

impl Default for FieldKind {
    fn default() -> (k: FieldKind)
        ensures
            k == FieldKind::String,
    {
        FieldKind::String
    }
}

/// The JSON Schema base type of a shape.
pub open spec fn schema_type_spec(k: FieldKind) -> Seq<char> {
    match k {
        FieldKind::String | FieldKind::Duration | FieldKind::Time | FieldKind::Bytes => "string"@,
        FieldKind::Bool => "boolean"@,
        FieldKind::I8 | FieldKind::I16 | FieldKind::I32 | FieldKind::I64 | FieldKind::U8
        | FieldKind::U16 | FieldKind::U32 | FieldKind::U64 => "integer"@,
        FieldKind::F32 | FieldKind::F64 => "number"@,
        FieldKind::Slice => "array"@,
        FieldKind::Ptr => "pointer"@,
        FieldKind::Struct | FieldKind::Union => "object"@,
    }
}

/// The scalar shapes: text, booleans and numbers.
pub open spec fn is_scalar_spec(k: FieldKind) -> bool {
    match k {
        FieldKind::String | FieldKind::Bool | FieldKind::I8 | FieldKind::I16 | FieldKind::I32
        | FieldKind::I64 | FieldKind::U8 | FieldKind::U16 | FieldKind::U32 | FieldKind::U64
        | FieldKind::F32 | FieldKind::F64 => true,
        _ => false,
    }
}

/// The name `{:?}` gives a shape.
pub open spec fn kind_debug(k: FieldKind) -> Seq<char> {
    match k {
        FieldKind::String => "String"@,
        FieldKind::Bool => "Bool"@,
        FieldKind::I8 => "I8"@,
        FieldKind::I16 => "I16"@,
        FieldKind::I32 => "I32"@,
        FieldKind::I64 => "I64"@,
        FieldKind::U8 => "U8"@,
        FieldKind::U16 => "U16"@,
        FieldKind::U32 => "U32"@,
        FieldKind::U64 => "U64"@,
        FieldKind::F32 => "F32"@,
        FieldKind::F64 => "F64"@,
        FieldKind::Duration => "Duration"@,
        FieldKind::Time => "Time"@,
        FieldKind::Bytes => "Bytes"@,
        FieldKind::Ptr => "Ptr"@,
        FieldKind::Slice => "Slice"@,
        FieldKind::Struct => "Struct"@,
        FieldKind::Union => "Union"@,
    }
}

impl FieldKind {
    /// The JSON Schema base type (shared by the OpenAPI parameter table and
    /// the schema generator).
    pub fn schema_type(&self) -> (r: &'static str)
        ensures
            r@ == schema_type_spec(*self),
    {
        match self {
            FieldKind::String | FieldKind::Duration | FieldKind::Time | FieldKind::Bytes => {
                "string"
            },
            FieldKind::Bool => "boolean",
            FieldKind::I8 | FieldKind::I16 | FieldKind::I32 | FieldKind::I64 | FieldKind::U8
            | FieldKind::U16 | FieldKind::U32 | FieldKind::U64 => "integer",
            FieldKind::F32 | FieldKind::F64 => "number",
            FieldKind::Slice => "array",
            FieldKind::Ptr => "pointer",
            FieldKind::Struct | FieldKind::Union => "object",
        }
    }

    /// Whether the shape is a scalar (text, boolean or number).
    pub fn is_scalar(&self) -> (r: bool)
        ensures
            r == is_scalar_spec(*self),
    {
        match self {
            FieldKind::String | FieldKind::Bool | FieldKind::I8 | FieldKind::I16 | FieldKind::I32
            | FieldKind::I64 | FieldKind::U8 | FieldKind::U16 | FieldKind::U32 | FieldKind::U64
            | FieldKind::F32 | FieldKind::F64 => true,
            _ => false,
        }
    }

    /// Whether the shape is a number.
    pub fn is_numeric(&self) -> (r: bool)
        ensures
            r == (is_scalar_spec(*self) && *self != FieldKind::String && *self != FieldKind::Bool),
    {
        self.is_scalar() && !matches!(self, FieldKind::String | FieldKind::Bool)
    }

    /// The width of a signed integer shape.
    pub fn is_signed_width(&self) -> (r: Option<u32>)
        ensures
            r == match *self {
                FieldKind::I8 => Some(8u32),
                FieldKind::I16 => Some(16u32),
                FieldKind::I32 => Some(32u32),
                FieldKind::I64 => Some(64u32),
                _ => None,
            },
    {
        match self {
            FieldKind::I8 => Some(8),
            FieldKind::I16 => Some(16),
            FieldKind::I32 => Some(32),
            FieldKind::I64 => Some(64),
            _ => None,
        }
    }

    /// The `{:?}` name of the shape.
    pub fn debug_name(&self) -> (r: &'static str)
        ensures
            r@ == kind_debug(*self),
    {
        match self {
            FieldKind::String => "String",
            FieldKind::Bool => "Bool",
            FieldKind::I8 => "I8",
            FieldKind::I16 => "I16",
            FieldKind::I32 => "I32",
            FieldKind::I64 => "I64",
            FieldKind::U8 => "U8",
            FieldKind::U16 => "U16",
            FieldKind::U32 => "U32",
            FieldKind::U64 => "U64",
            FieldKind::F32 => "F32",
            FieldKind::F64 => "F64",
            FieldKind::Duration => "Duration",
            FieldKind::Time => "Time",
            FieldKind::Bytes => "Bytes",
            FieldKind::Ptr => "Ptr",
            FieldKind::Slice => "Slice",
            FieldKind::Struct => "Struct",
            FieldKind::Union => "Union",
        }
    }
}

/// Whether a signed value fits the width of its shape (shapes without a
/// narrower width accept every value).
pub open spec fn fits_int(kind: FieldKind, v: int) -> bool {
    match kind {
        FieldKind::I8 => -128 <= v <= 127,
        FieldKind::I16 => -32768 <= v <= 32767,
        FieldKind::I32 => -2147483648 <= v <= 2147483647,
        _ => true,
    }
}

/// Whether an unsigned value fits the width of its shape.
pub open spec fn fits_uint(kind: FieldKind, v: int) -> bool {
    match kind {
        FieldKind::U8 => v <= 255,
        FieldKind::U16 => v <= 65535,
        FieldKind::U32 => v <= 4294967295,
        _ => true,
    }
}

/// The decimal rendering of a signed value.
pub open spec fn signed_decimal(v: int) -> Seq<char> {
    if v < 0 {
        "-"@ + text::decimal((-v) as nat)
    } else {
        text::decimal(v as nat)
    }
}

/// The message of a value that does not fit its shape.
pub open spec fn overflow_message(v: int, kind: FieldKind) -> Seq<char> {
    "value "@ + signed_decimal(v) + " overflows "@ + kind_debug(kind)
}

fn overflow_error(digits: String, kind: FieldKind) -> (e: errors::Error)
    ensures
        e.kind_spec() == errors::Kind::Internal && e.class_spec() == errors::Kind::Internal,
        e.text_spec() == "value "@ + digits@ + " overflows "@ + kind_debug(kind),
{
    let mut m = text::owned("value ");
    text::append(&mut m, digits.as_str());
    text::append(&mut m, " overflows ");
    text::append(&mut m, kind.debug_name());
    proof {
        reveal_strlit("value ");
        assert(m@.len() > 0);
    }
    errors::new(errors::Kind::Internal, m)
}

/// Checks that a signed value fits the width of its shape.
pub fn check_int_width(kind: FieldKind, v: i64) -> (r: Result<(), errors::Error>)
    ensures
        match r {
            Ok(()) => fits_int(kind, v as int),
            Err(e) => !fits_int(kind, v as int) && e.kind_spec() == errors::Kind::Internal && e.class_spec() == errors::Kind::Internal
                && e.text_spec() == overflow_message(v as int, kind),
        },
{
    let ok = match kind.is_signed_width() {
        Some(8) => -128 <= v && v <= 127,
        Some(16) => -32768 <= v && v <= 32767,
        Some(32) => -2147483648 <= v && v <= 2147483647,
        _ => true,
    };
    if !ok {
        let digits = if v < 0 {
            let mut d = text::owned("-");
            let a: u128 = (0i128 - (v as i128)) as u128;
            let t = text::decimal_of_wide(a);
            text::append(&mut d, t.as_str());
            proof {
                reveal_strlit("-");
            }
            d
        } else {
            text::decimal_of(v as u64)
        };
        return Err(overflow_error(digits, kind));
    }
    Ok(())
}

/// Checks that an unsigned value fits the width of its shape.
pub fn check_uint_width(kind: FieldKind, v: u64) -> (r: Result<(), errors::Error>)
    ensures
        match r {
            Ok(()) => fits_uint(kind, v as int),
            Err(e) => !fits_uint(kind, v as int) && e.kind_spec() == errors::Kind::Internal && e.class_spec() == errors::Kind::Internal
                && e.text_spec() == overflow_message(v as int, kind),
        },
{
    let ok = match kind {
        FieldKind::U8 => v <= 255,
        FieldKind::U16 => v <= 65535,
        FieldKind::U32 => v <= 4294967295,
        _ => true,
    };
    if !ok {
        return Err(overflow_error(text::decimal_of(v), kind));
    }
    Ok(())
}

// ------------------------------------------------------------ descriptors
/// The static tree of a union: the serde tag key and each variant's fields.
#[derive(Debug)]
pub struct UnionSpec {
    pub tag: &'static str,
    pub variants: Vec<UnionVariantSpec>,
}

/// One variant of a union.
#[derive(Debug)]
pub struct UnionVariantSpec {
    pub name: &'static str,
    pub fields: Vec<FieldSpec>,
}

/// The static description of a field, in declaration order.
#[derive(Debug)]
pub struct FieldSpec {
    /// The Rust field name (where values for skipped fields are delivered).
    pub rust_name: &'static str,
    /// The wire name.
    pub json_name: &'static str,
    pub kind: FieldKind,
    pub desc: &'static str,
    pub required: bool,
    pub secret: bool,
    /// Not bound nor in the schema (env and header may still inject it).
    pub skip: bool,
    /// The raw `validate` tag.
    pub validate_s: &'static str,
    /// The raw `enum` tag.
    pub enum_s: &'static str,
    /// The raw `default` tag.
    pub default_s: &'static str,
    /// The raw `cli` tag.
    pub cli_s: &'static str,
    /// The raw http location (query/path/header/form/body/empty).
    pub http_s: &'static str,
    /// The http name override (such as a header name).
    pub http_name: Option<&'static str>,
    /// The element shape of `Ptr` and `Slice`.
    pub elem: Option<Box<FieldSpec>>,
    /// The fields of a struct.
    pub children: Vec<FieldSpec>,
    /// The union tree (for `Union`).
    pub union: Option<UnionSpec>,
}

/// The unnamed wrapper node of an element or a bare type.
pub fn synthetic(kind: FieldKind, children: Vec<FieldSpec>, elem: Option<Box<FieldSpec>>) -> (r:
    FieldSpec)
    ensures
        r.rust_name@ == ""@,
        r.json_name@ == ""@,
        r.kind == kind,
        r.desc@ == ""@,
        !r.required,
        !r.secret,
        !r.skip,
        r.validate_s@ == ""@,
        r.enum_s@ == ""@,
        r.default_s@ == ""@,
        r.cli_s@ == ""@,
        r.http_s@ == ""@,
        r.http_name is None,
        r.elem == elem,
        r.children@ == children@,
        r.union is None,
{
    FieldSpec {
        rust_name: "",
        json_name: "",
        kind,
        desc: "",
        required: false,
        secret: false,
        skip: false,
        validate_s: "",
        enum_s: "",
        default_s: "",
        cli_s: "",
        http_s: "",
        http_name: None,
        elem,
        children,
        union: None,
    }
}

// ------------------------------------------------------------ tags
/// The CLI binding of a field (the `cli` tag merged with the hints).
#[derive(Debug)]
pub struct CliField {
    pub shorthand: Option<char>,
    pub positional: bool,
    pub hidden: bool,
    pub skip: bool,
    pub env_var: Option<String>,
    /// A CLI-only default; overrides the global default for the CLI.
    pub default: Option<Json>,
}

/// The plain values a `cli` tag sets.
pub struct CliTag {
    pub shorthand: Option<char>,
    pub positional: bool,
    pub hidden: bool,
    pub skip: bool,
    pub env_var: Option<Seq<char>>,
}

impl CliField {
    /// The values a `cli` tag sets.
    pub open spec fn tag_view(&self) -> CliTag {
        CliTag {
            shorthand: self.shorthand,
            positional: self.positional,
            hidden: self.hidden,
            skip: self.skip,
            env_var: match self.env_var {
                Some(e) => Some(e@),
                None => None,
            },
        }
    }
}

/// The empty `cli` tag.
pub open spec fn empty_cli_tag() -> CliTag {
    CliTag { shorthand: None, positional: false, hidden: false, skip: false, env_var: None }
}

/// What one token of a `cli` tag does: `positional`, `hidden`,
/// `shorthand=X` (one character), `env=NAME` (not empty).
pub open spec fn cli_token(tok: Seq<char>, f: CliTag) -> Result<CliTag, Seq<char>> {
    if tok == "positional"@ {
        Ok(CliTag { positional: true, ..f })
    } else if tok == "hidden"@ {
        Ok(CliTag { hidden: true, ..f })
    } else if text::is_prefix("shorthand="@, tok) {
        let sh = tok.skip(10);
        if sh.len() == 1 {
            Ok(CliTag { shorthand: Some(sh[0]), ..f })
        } else {
            Err("cli shorthand must be one character, got "@ + text::quoted(sh))
        }
    } else if text::is_prefix("env="@, tok) {
        let ev = tok.skip(4);
        if ev.len() == 0 {
            Err("cli env requires a variable name"@)
        } else {
            Ok(CliTag { env_var: Some(ev), ..f })
        }
    } else {
        Err("unknown cli option "@ + text::quoted(tok)
            + " (want positional|hidden|shorthand=X|env=X|-)"@)
    }
}

/// The tokens of a `cli` tag applied in order; the first bad one decides.
pub open spec fn cli_tokens(toks: Seq<Seq<char>>, f: CliTag) -> Result<CliTag, Seq<char>>
    decreases toks.len(),
{
    if toks.len() == 0 {
        Ok(f)
    } else {
        match cli_token(toks[0], f) {
            Ok(g) => cli_tokens(toks.drop_first(), g),
            Err(m) => Err(m),
        }
    }
}

/// A `cli` tag: `-` alone removes the field from the CLI; otherwise a
/// comma list of options (blank entries ignored).
pub open spec fn cli_tag_spec(s: Seq<char>) -> Result<CliTag, Seq<char>> {
    if text::trim(s) == "-"@ {
        Ok(CliTag { skip: true, ..empty_cli_tag() })
    } else {
        cli_tokens(text::comma_list(s), empty_cli_tag())
    }
}

/// Parses a `cli` tag: `shorthand=a`, `positional`, `hidden`, `env=VAR`,
/// or `-`.
pub fn parse_cli_tag(s: &str) -> (r: Result<CliField, errors::Error>)
    ensures
        match r {
            Ok(f) => cli_tag_spec(s@) == Ok::<CliTag, Seq<char>>(f.tag_view()) && f.default is None,
            Err(e) => cli_tag_spec(s@) is Err && e.kind_spec() == errors::Kind::Internal && e.class_spec() == errors::Kind::Internal
                && e.text_spec() == cli_tag_spec(s@)->Err_0,
        },
{
    let mut f = CliField {
        shorthand: None,
        positional: false,
        hidden: false,
        skip: false,
        env_var: None,
        default: None,
    };
    let t = text::str_trim(s);
    if text::str_eq(t.as_str(), "-") {
        f.skip = true;
        return Ok(f);
    }
    let toks = text::comma_list_of(s);
    let ghost tv = text::views(toks@);
    let mut i: usize = 0;
    proof {
        assert(tv.skip(0) == tv);
    }
    while i < toks.len()
        invariant
            i <= toks.len(),
            tv == text::views(toks@),
            tv == text::comma_list(s@),
            text::trim(s@) != "-"@,
            f.default is None,
            cli_tag_spec(s@) == cli_tokens(tv.skip(i as int), f.tag_view()),
        decreases toks.len() - i,
    {
        let tok = toks[i].as_str();
        let ghost g = f.tag_view();
        proof {
            reveal_strlit("positional");
            reveal_strlit("hidden");
            reveal_strlit("shorthand=");
            reveal_strlit("env=");
            reveal_strlit("cli shorthand must be one character, got ");
            reveal_strlit("cli env requires a variable name");
            reveal_strlit("unknown cli option ");
            assert(tv.skip(i as int)[0] == tok@);
            assert(tv.skip(i as int).drop_first() == tv.skip(i + 1));
        }
        if text::str_eq(tok, "positional") {
            f.positional = true;
            assert(cli_token(tok@, g) == Ok::<CliTag, Seq<char>>(f.tag_view()));
        } else if text::str_eq(tok, "hidden") {
            f.hidden = true;
            assert(cli_token(tok@, g) == Ok::<CliTag, Seq<char>>(f.tag_view()));
        } else if let Some(sh) = text::strip_prefix(tok, "shorthand=") {
            let cs = text::chars_of(sh.as_str());
            assert("shorthand="@.len() == 10);
            assert(sh@ == tok@.skip(10));
            if cs.len() == 1 {
                f.shorthand = Some(cs[0]);
                assert(cli_token(tok@, g) == Ok::<CliTag, Seq<char>>(f.tag_view()));
            } else {
                let mut m = text::owned("cli shorthand must be one character, got ");
                let q = text::quote(sh.as_str());
                text::append(&mut m, q.as_str());
                assert(cli_token(tok@, g) == Err::<CliTag, Seq<char>>(m@));
                return Err(errors::new(errors::Kind::Internal, m));
            }
        } else if let Some(ev) = text::strip_prefix(tok, "env=") {
            assert("env="@.len() == 4);
            if ev.as_str().is_empty() {
                return Err(
                    errors::new(errors::Kind::Internal, text::owned("cli env requires a variable name")),
                );
            }
            f.env_var = Some(ev);
            assert(cli_token(tok@, g) == Ok::<CliTag, Seq<char>>(f.tag_view()));
        } else {
            let mut m = text::owned("unknown cli option ");
            let q = text::quote(tok);
            text::append(&mut m, q.as_str());
            text::append(&mut m, " (want positional|hidden|shorthand=X|env=X|-)");
            return Err(errors::new(errors::Kind::Internal, m));
        }
        i += 1;
    }
    Ok(f)
}

/// The http locations a field may name.
pub open spec fn http_location_ok(s: Seq<char>) -> bool {
    s == ""@ || s == "query"@ || s == "path"@ || s == "header"@ || s == "form"@ || s == "body"@
}

/// Whether `s` is a valid http location (the tag and the hints share it).
pub fn valid_http_location(s: &str) -> (r: bool)
    ensures
        r == http_location_ok(s@),
{
    text::str_eq(s, "") || text::str_eq(s, "query") || text::str_eq(s, "path") || text::str_eq(
        s,
        "header",
    ) || text::str_eq(s, "form") || text::str_eq(s, "body")
}

/// The http binding of a field.
#[derive(Debug)]
pub struct HTTPField {
    /// Empty (query by default), query, path, header, form or body.
    pub location: String,
    pub name: String,
    pub default: Option<Json>,
}

/// Parses an http location and name override.
pub fn parse_http_tag(s: &str, http_name: Option<&str>) -> (r: Result<HTTPField, errors::Error>)
    ensures
        match r {
            Ok(h) => http_location_ok(s@) && h.location@ == s@ && h.name@ == (match http_name {
                Some(n) => n@,
                None => ""@,
            }) && h.default is None,
            Err(e) => !http_location_ok(s@) && e.kind_spec() == errors::Kind::Internal && e.class_spec() == errors::Kind::Internal
                && e.text_spec() == "unknown http location "@ + text::quoted(s@)
                + " (want query|path|header|form|body)"@,
        },
{
    if !valid_http_location(s) {
        let mut m = text::owned("unknown http location ");
        let q = text::quote(s);
        text::append(&mut m, q.as_str());
        text::append(&mut m, " (want query|path|header|form|body)");
        proof {
            reveal_strlit("unknown http location ");
        }
        return Err(errors::new(errors::Kind::Internal, m));
    }
    let name = match http_name {
        Some(n) => text::owned(n),
        None => text::owned(""),
    };
    proof {
        reveal_strlit("");
    }
    Ok(HTTPField { location: text::owned(s), name, default: None })
}

// ------------------------------------------------------------ runtime metadata
/// The MCP binding of a field: a default that also replaces the schema's.
#[derive(Debug)]
pub struct MCPField {
    pub default: Option<Json>,
}

/// The runtime metadata of a field: its parsed tags merged with the
/// definition-time hints.
#[derive(Debug)]
pub struct FieldMeta {
    pub name: String,
    pub json_name: String,
    pub kind: FieldKind,
    pub description: String,
    pub required: bool,
    pub secret: bool,
    pub validate: String,
    /// The parsed enum values (scalars only).
    pub enum_values: Vec<Json>,
    /// The parsed global default.
    pub default: Option<Json>,
    pub skip: bool,
    pub cli: CliField,
    pub http: HTTPField,
    pub mcp: MCPField,
    /// The element metadata of `Ptr` and `Slice`.
    pub elem: Option<Box<FieldMeta>>,
    /// The fields of a struct.
    pub children: Vec<FieldMeta>,
}

/// The plain values of a field's metadata that the frontends decide on.
pub struct FieldView {
    pub name: Seq<char>,
    pub json_name: Seq<char>,
    pub kind: FieldKind,
    pub description: Seq<char>,
    pub required: bool,
    pub skip: bool,
    pub cli: CliTag,
    pub elem_kind: Option<FieldKind>,
}

impl View for FieldMeta {
    type V = FieldView;

    open spec fn view(&self) -> FieldView {
        FieldView {
            name: self.name@,
            json_name: self.json_name@,
            kind: self.kind,
            description: self.description@,
            required: self.required,
            skip: self.skip,
            cli: self.cli.tag_view(),
            elem_kind: match self.elem {
                Some(e) => Some(e.kind),
                None => None,
            },
        }
    }
}

/// The views of a list of fields.
pub open spec fn field_views(v: Seq<FieldMeta>) -> Seq<FieldView> {
    v.map_values(|f: FieldMeta| f@)
}

/// The refusal of a field's value by one of its validation rules, named
/// by the field's JSON name (its Rust name when it has none).
pub open spec fn rule_error_text(f: FieldMeta, rule: Seq<char>) -> Seq<char> {
    "invalid value for field "@ + text::quoted(
        if f.json_name@.len() > 0 {
            f.json_name@
        } else {
            f.name@
        },
    ) + ": "@ + rule
}

/// The invalid-input error of a field whose value breaks `rule`.
pub fn field_rule_error(f: &FieldMeta, rule: &str) -> (e: errors::Error)
    ensures
        e.text_spec() == rule_error_text(*f, rule@),
        e.kind_spec() == errors::Kind::InvalidInput && e.class_spec() == errors::Kind::InvalidInput,
{
    let name = if f.json_name.as_str().is_empty() {
        f.name.as_str()
    } else {
        f.json_name.as_str()
    };
    let mut m = text::owned("invalid value for field ");
    let q = text::quote(name);
    text::append(&mut m, q.as_str());
    text::append(&mut m, ": ");
    text::append(&mut m, rule);
    proof {
        reveal_strlit("invalid value for field ");
    }
    errors::new(errors::Kind::InvalidInput, m)
}

// ------------------------------------------------------------ depth guard
/// The deepest argument-struct nesting the spec generator follows.
pub const MAX_SPEC_DEPTH: usize = 20;

/// Whether the spec generator may enter one more level at nesting
/// `depth` (at most [`MAX_SPEC_DEPTH`] levels are entered before it);
/// past that the type is refused with [`spec_depth_message`].
pub fn spec_depth_ok(depth: usize) -> (ok: bool)
    ensures
        ok == (depth <= MAX_SPEC_DEPTH),
{
    depth <= MAX_SPEC_DEPTH
}

/// The spec generator's guard against self-referential argument types:
/// each level entered counts one.  Entering past [`MAX_SPEC_DEPTH`]
/// levels is refused before the call (see [`spec_depth_ok`]).
pub fn spec_depth_guard(depth: &mut usize)
    requires
        *old(depth) <= MAX_SPEC_DEPTH,
    ensures
        *final(depth) == *old(depth) + 1,
{
    *depth = *depth + 1;
}

/// The message of a refused nesting.
pub fn spec_depth_message() -> (m: String)
    ensures
        m@ == "xyz: argument struct nesting exceeds 20 levels (recursive type?)"@,
{
    text::owned("xyz: argument struct nesting exceeds 20 levels (recursive type?)")
}


// ------------------------------------------------------------ tag literals
/// The shapes an `enum` tag may stand on: the scalars.
pub open spec fn enum_kind(k: FieldKind) -> bool {
    k == FieldKind::String || k == FieldKind::Bool || scalar::signed_kind(k) || scalar::unsigned_kind(k)
        || k == FieldKind::F32 || k == FieldKind::F64
}

/// The values of an `enum` tag's trimmed parts from the `i`-th on, or the
/// first refusal: an empty part, or a literal the shape does not read.
pub open spec fn enum_parts_from(kind: FieldKind, parts: Seq<Seq<char>>, rs: Seq<FloatReading>, i: int) -> Result<
    Seq<JsonView>,
    Seq<char>,
>
    decreases parts.len() - i,
{
    if i < 0 || i >= parts.len() {
        Ok(Seq::empty())
    } else if parts[i].len() == 0 {
        Err("enum contains an empty value"@)
    } else {
        match scalar::literal_spec(kind, parts[i], rs) {
            Err(m) => Err(m),
            Ok(j) => match enum_parts_from(kind, parts, rs, i + 1) {
                Ok(js) => Ok(seq![j] + js),
                Err(m) => Err(m),
            },
        }
    }
}

/// The values of an `enum` tag (comma separated, each part trimmed).
pub open spec fn enum_spec(kind: FieldKind, s: Seq<char>, rs: Seq<FloatReading>) -> Result<Seq<JsonView>, Seq<char>> {
    if !enum_kind(kind) {
        Err("enum is only supported on scalar fields, got "@ + kind_debug(kind))
    } else {
        enum_parts_from(kind, text::split(s, ',').map_values(|p: Seq<char>| text::trim(p)), rs, 0)
    }
}

proof fn lemma_items_push(s: Seq<Json>, j: Json)
    ensures
        json::items_view(s.push(j)) == json::items_view(s) + seq![json::json_view(j)],
{
    assert(s.push(j).drop_last() == s);
}

/// Parses an `enum` tag into the values it allows; floats come from
/// `readings`.
pub fn parse_enum(kind: FieldKind, s: &str, readings: &Vec<FloatReading>) -> (r: Result<Vec<Json>, errors::Error>)
    ensures
        match enum_spec(kind, s@, readings@) {
            Ok(vs) => r matches Ok(x) && json::items_view(x@) == vs,
            Err(m) => r matches Err(e) && e.text_spec() == m && e.kind_spec() == errors::Kind::Internal && e.class_spec() == errors::Kind::Internal,
        },
{
    let ok = match kind {
        FieldKind::String | FieldKind::Bool | FieldKind::I8 | FieldKind::I16 | FieldKind::I32 | FieldKind::I64
        | FieldKind::U8 | FieldKind::U16 | FieldKind::U32 | FieldKind::U64 | FieldKind::F32 | FieldKind::F64 => true,
        _ => false,
    };
    if !ok {
        let mut m = text::owned("enum is only supported on scalar fields, got ");
        text::append(&mut m, kind.debug_name());
        proof {
            reveal_strlit("enum is only supported on scalar fields, got ");
        }
        return Err(errors::new(errors::Kind::Internal, m));
    }
    let cs = text::chars_of(s);
    let pieces = text::split_chars(cs.as_slice(), ',');
    let ghost ps = text::split(s@, ',').map_values(|p: Seq<char>| text::trim(p));
    let mut out: Vec<Json> = Vec::new();
    let mut i: usize = 0;
    assert(json::items_view(out@) =~= Seq::<JsonView>::empty());
    while i < pieces.len()
        invariant
            i <= pieces.len(),
            pieces@.len() == ps.len(),
            ps == text::split(s@, ',').map_values(|p: Seq<char>| text::trim(p)),
            enum_kind(kind),
            forall|j: int| 0 <= j < pieces@.len() ==> text::trim((#[trigger] pieces@[j])@) == ps[j],
            enum_parts_from(kind, ps, readings@, 0) == match enum_parts_from(kind, ps, readings@, i as int) {
                Ok(js) => Ok::<Seq<JsonView>, Seq<char>>(json::items_view(out@) + js),
                Err(m) => Err(m),
            },
        decreases pieces.len() - i,
    {
        let part = text::trim_chars(pieces[i].as_slice());
        let p = text::string_of(part.as_slice());
        assert(p@ == ps[i as int]);
        if p.as_str().is_empty() {
            proof {
                reveal_strlit("enum contains an empty value");
            }
            return Err(errors::new(errors::Kind::Internal, text::owned("enum contains an empty value")));
        }
        match scalar::parse_scalar_literal(kind, p.as_str(), readings) {
            Err(e) => {
                return Err(e);
            },
            Ok(v) => {
                let ghost before = out@;
                let ghost jv = json::json_view(v);
                out.push(v);
                proof {
                    lemma_items_push(before, out@.last());
                    assert(out@ == before.push(out@.last()));
                    match enum_parts_from(kind, ps, readings@, i + 1) {
                        Ok(js) => {
                            assert(json::items_view(before) + (seq![jv] + js) =~= json::items_view(out@) + js);
                        },
                        Err(m) => {},
                    }
                }
            },
        }
        i += 1;
    }
    assert(json::items_view(out@) + Seq::<JsonView>::empty() =~= json::items_view(out@));
    Ok(out)
}


/// The refusal of a `default` tag.
pub open spec fn bad_default(s: Seq<char>, m: Seq<char>) -> Seq<char> {
    "bad default "@ + text::quoted(s) + ": "@ + m
}

/// The values of a list default's parts from the `i`-th on, or the first
/// refusal, naming its part.
pub open spec fn elements_from(kind: FieldKind, parts: Seq<Seq<char>>, rs: Seq<FloatReading>, i: int) -> Result<
    Seq<JsonView>,
    Seq<char>,
>
    decreases parts.len() - i,
{
    if i < 0 || i >= parts.len() {
        Ok(Seq::empty())
    } else {
        match scalar::literal_spec(kind, parts[i], rs) {
            Err(m) => Err("element "@ + text::quoted(parts[i]) + ": "@ + m),
            Ok(j) => match elements_from(kind, parts, rs, i + 1) {
                Ok(js) => Ok(seq![j] + js),
                Err(m) => Err(m),
            },
        }
    }
}

/// The value of a `default` tag on a field: a duration or a date-time as
/// written once it reads as one, bytes as written, a list from its comma
/// separated non-blank parts, an optional value as its element's; a
/// struct has none; other shapes read it as a scalar literal.
pub open spec fn default_spec(spec: FieldSpec, s: Seq<char>, rs: Seq<FloatReading>) -> Result<JsonView, Seq<char>>
    decreases spec,
{
    match spec.kind {
        FieldKind::Duration => match scalar::duration_spec(s) {
            Ok(_) => Ok(JsonView::Str(s)),
            Err(e) => Err(bad_default(s, scalar::duration_message(s, e))),
        },
        FieldKind::Time => match scalar::rfc3339_refusal(s) {
            None => Ok(JsonView::Str(s)),
            Some(t) => Err(bad_default(s, scalar::datetime_message(s, t))),
        },
        FieldKind::Bytes => Ok(JsonView::Str(s)),
        FieldKind::Slice => match spec.elem {
            None => Err("slice without elem kind"@),
            Some(e) => match elements_from(e.kind, text::comma_list(s), rs, 0) {
                Ok(js) => Ok(JsonView::Array(js)),
                Err(m) => Err(m),
            },
        },
        FieldKind::Ptr => match spec.elem {
            Some(e) => default_spec(*e, s, rs),
            None => Err("pointer without elem kind"@),
        },
        FieldKind::Struct => Err("unsupported scalar kind Struct for default "@ + text::quoted(s)),
        _ => match scalar::literal_spec(spec.kind, s, rs) {
            Ok(j) => Ok(j),
            Err(m) => Err(bad_default(s, m)),
        },
    }
}

fn bad_default_error(s: &str, m: &str) -> (e: errors::Error)
    ensures
        e.text_spec() == bad_default(s@, m@),
        e.kind_spec() == errors::Kind::Internal && e.class_spec() == errors::Kind::Internal,
{
    let mut t = text::owned("bad default ");
    let q = text::quote(s);
    text::append(&mut t, q.as_str());
    text::append(&mut t, ": ");
    text::append(&mut t, m);
    proof {
        reveal_strlit("bad default ");
    }
    errors::new(errors::Kind::Internal, t)
}

fn list_default(kind: FieldKind, s: &str, readings: &Vec<FloatReading>) -> (r: Result<Vec<Json>, errors::Error>)
    ensures
        match elements_from(kind, text::comma_list(s@), readings@, 0) {
            Ok(vs) => r matches Ok(x) && json::items_view(x@) == vs,
            Err(m) => r matches Err(e) && e.text_spec() == m && e.kind_spec() == errors::Kind::Internal && e.class_spec() == errors::Kind::Internal,
        },
{
    let parts = text::comma_list_of(s);
    let ghost ps = text::comma_list(s@);
    let mut out: Vec<Json> = Vec::new();
    let mut i: usize = 0;
    assert(json::items_view(out@) =~= Seq::<JsonView>::empty());
    while i < parts.len()
        invariant
            i <= parts.len(),
            text::views(parts@) == ps,
            ps == text::comma_list(s@),
            elements_from(kind, ps, readings@, 0) == match elements_from(kind, ps, readings@, i as int) {
                Ok(js) => Ok::<Seq<JsonView>, Seq<char>>(json::items_view(out@) + js),
                Err(m) => Err(m),
            },
        decreases parts.len() - i,
    {
        let p = parts[i].as_str();
        assert(p@ == ps[i as int]);
        match scalar::parse_scalar_literal(kind, p, readings) {
            Err(e) => {
                let mut t = text::owned("element ");
                let q = text::quote(p);
                text::append(&mut t, q.as_str());
                text::append(&mut t, ": ");
                let et = e.to_text();
                text::append(&mut t, et.as_str());
                proof {
                    reveal_strlit("element ");
                }
                return Err(errors::new(errors::Kind::Internal, t));
            },
            Ok(v) => {
                let ghost before = out@;
                let ghost jv = json::json_view(v);
                out.push(v);
                proof {
                    lemma_items_push(before, out@.last());
                    assert(out@ == before.push(out@.last()));
                    match elements_from(kind, ps, readings@, i + 1) {
                        Ok(js) => {
                            assert(json::items_view(before) + (seq![jv] + js) =~= json::items_view(out@) + js);
                        },
                        Err(m) => {},
                    }
                }
            },
        }
        i += 1;
    }
    assert(json::items_view(out@) + Seq::<JsonView>::empty() =~= json::items_view(out@));
    Ok(out)
}

/// Parses a `default` tag on a field (see [`default_spec`]); floats come
/// from `readings`.
pub fn parse_default(spec: &FieldSpec, s: &str, readings: &Vec<FloatReading>) -> (r: Result<Json, errors::Error>)
    ensures
        match default_spec(*spec, s@, readings@) {
            Ok(j) => r matches Ok(x) && json::json_view(x) == j,
            Err(m) => r matches Err(e) && e.text_spec() == m && e.kind_spec() == errors::Kind::Internal && e.class_spec() == errors::Kind::Internal,
        },
    decreases spec,
{
    match spec.kind {
        FieldKind::Duration => match scalar::parse_duration(s) {
            Ok(_) => Ok(Json::Str(text::owned(s))),
            Err(m) => Err(bad_default_error(s, m.as_str())),
        },
        FieldKind::Time => match scalar::parse_datetime(s) {
            Ok(()) => Ok(Json::Str(text::owned(s))),
            Err(m) => Err(bad_default_error(s, m.as_str())),
        },
        FieldKind::Bytes => Ok(Json::Str(text::owned(s))),
        FieldKind::Slice => match &spec.elem {
            None => {
                proof {
                    reveal_strlit("slice without elem kind");
                }
                Err(errors::new(errors::Kind::Internal, text::owned("slice without elem kind")))
            },
            Some(e) => match list_default(e.kind, s, readings) {
                Ok(items) => Ok(Json::Array(items)),
                Err(err) => Err(err),
            },
        },
        FieldKind::Ptr => match &spec.elem {
            Some(e) => parse_default(e, s, readings),
            None => {
                proof {
                    reveal_strlit("pointer without elem kind");
                }
                Err(errors::new(errors::Kind::Internal, text::owned("pointer without elem kind")))
            },
        },
        FieldKind::Struct => {
            let mut m = text::owned("unsupported scalar kind Struct for default ");
            let q = text::quote(s);
            text::append(&mut m, q.as_str());
            proof {
                reveal_strlit("unsupported scalar kind Struct for default ");
            }
            Err(errors::new(errors::Kind::Internal, m))
        },
        _ => match scalar::parse_scalar_literal(spec.kind, s, readings) {
            Ok(j) => Ok(j),
            Err(e) => {
                let et = e.to_text();
                Err(bad_default_error(s, et.as_str()))
            },
        },
    }
}


// ------------------------------------------------------------ descriptions to metadata
/// The message of an unknown http location.
pub open spec fn http_location_message(s: Seq<char>) -> Seq<char> {
    "unknown http location "@ + text::quoted(s) + " (want query|path|header|form|body)"@
}

/// The http name override of a description (empty where none).
pub open spec fn http_name_of(spec: FieldSpec) -> Seq<char> {
    match spec.http_name {
        Some(n) => n@,
        None => ""@,
    }
}

/// The first refusal of a description's own tags, in the order cli,
/// http, validate, default (where given), enum (where given).
pub open spec fn own_error(spec: FieldSpec, rs: Seq<FloatReading>) -> Option<Seq<char>> {
    if cli_tag_spec(spec.cli_s@) is Err {
        Some(cli_tag_spec(spec.cli_s@)->Err_0)
    } else if !http_location_ok(spec.http_s@) {
        Some(http_location_message(spec.http_s@))
    } else if validate::validate_spec(spec.validate_s@) is Err {
        Some(validate::validate_spec(spec.validate_s@)->Err_0)
    } else if spec.default_s@.len() > 0 && default_spec(spec, spec.default_s@, rs) is Err {
        Some(default_spec(spec, spec.default_s@, rs)->Err_0)
    } else if spec.enum_s@.len() > 0 && enum_spec(spec.kind, spec.enum_s@, rs) is Err {
        Some(enum_spec(spec.kind, spec.enum_s@, rs)->Err_0)
    } else {
        None
    }
}

/// The number of fields of a union variant of a description (none past
/// the last variant).
pub open spec fn variant_len(spec: FieldSpec, v: int) -> int {
    match spec.union {
        Some(u) => if 0 <= v < u.variants.len() {
            u.variants@[v].fields.len() as int
        } else {
            0
        },
        None => 0,
    }
}

/// The number of union variants of a description.
pub open spec fn variant_count(spec: FieldSpec) -> int {
    match spec.union {
        Some(u) => u.variants.len() as int,
        None => 0,
    }
}

/// The first refusal met building the metadata of a description: its own
/// tags, then its element, then its fields in order, then the fields of
/// its union variants in order.
pub open spec fn meta_error(spec: FieldSpec, rs: Seq<FloatReading>) -> Option<Seq<char>>
    decreases spec, 2int, 0int, 0int,
{
    if own_error(spec, rs) is Some {
        own_error(spec, rs)
    } else {
        let from_elem = match spec.elem {
            Some(e) => meta_error(*e, rs),
            None => None,
        };
        if from_elem is Some {
            from_elem
        } else {
            let from_children = children_error(spec, rs, 0);
            if from_children is Some {
                from_children
            } else {
                variants_error(spec, rs, 0, 0)
            }
        }
    }
}

/// The first refusal among a description's fields from the `i`-th on.
pub open spec fn children_error(spec: FieldSpec, rs: Seq<FloatReading>, i: int) -> Option<Seq<char>>
    decreases spec, 1int, spec.children.len() - i, 0int,
{
    if i < 0 || i >= spec.children.len() {
        None
    } else {
        let here = meta_error(spec.children@[i], rs);
        if here is Some {
            here
        } else {
            children_error(spec, rs, i + 1)
        }
    }
}

/// The first refusal among the fields of a description's union variants,
/// from field `i` of variant `v` on.
pub open spec fn variants_error(spec: FieldSpec, rs: Seq<FloatReading>, v: int, i: int) -> Option<Seq<char>>
    decreases spec, 0int, variant_count(spec) - v, variant_len(spec, v) - i,
{
    if v < 0 || v >= variant_count(spec) {
        None
    } else if i < 0 || i >= variant_len(spec, v) {
        variants_error(spec, rs, v + 1, 0)
    } else {
        let here = meta_error(spec.union->Some_0.variants@[v].fields@[i], rs);
        if here is Some {
            here
        } else {
            variants_error(spec, rs, v, i + 1)
        }
    }
}


/// Whether `m` is the metadata built from description `spec`: its names,
/// shape, flags and raw validate tag copied, its cli and http bindings
/// those the tags give, its default and enum values those the tags read
/// (none where not given), no MCP default, and its element and fields
/// built from theirs in the same way.
pub open spec fn meta_matches(spec: FieldSpec, rs: Seq<FloatReading>, m: FieldMeta) -> bool
    decreases spec,
{
    &&& m.name@ == spec.rust_name@
    &&& m.json_name@ == spec.json_name@
    &&& m.kind == spec.kind
    &&& m.description@ == spec.desc@
    &&& m.required == spec.required
    &&& m.secret == spec.secret
    &&& m.validate@ == spec.validate_s@
    &&& m.skip == spec.skip
    &&& cli_tag_spec(spec.cli_s@) == Ok::<CliTag, Seq<char>>(m.cli.tag_view())
    &&& m.cli.default is None
    &&& m.http.location@ == spec.http_s@
    &&& m.http.name@ == http_name_of(spec)
    &&& m.http.default is None
    &&& m.mcp.default is None
    &&& (if spec.default_s@.len() == 0 {
        m.default is None
    } else {
        m.default matches Some(d) && default_spec(spec, spec.default_s@, rs) == Ok::<JsonView, Seq<char>>(
            json::json_view(d),
        )
    })
    &&& (if spec.enum_s@.len() == 0 {
        m.enum_values@.len() == 0
    } else {
        enum_spec(spec.kind, spec.enum_s@, rs) == Ok::<Seq<JsonView>, Seq<char>>(json::items_view(m.enum_values@))
    })
    &&& match spec.elem {
        Some(e) => m.elem matches Some(me) && meta_matches(*e, rs, *me),
        None => m.elem is None,
    }
    &&& m.children.len() == spec.children.len()
    &&& forall|i: int| 0 <= i < spec.children.len() ==> meta_matches(spec.children@[i], rs, #[trigger] m.children@[i])
}

/// Builds the metadata of a field from its description: parses its tags
/// (floats from `readings`), then its element and fields; the first
/// refusal met is returned (see [`meta_error`]).  A union's variants are
/// checked the same way.
pub fn meta_from_spec(spec: &FieldSpec, readings: &Vec<FloatReading>) -> (r: Result<FieldMeta, errors::Error>)
    ensures
        match meta_error(*spec, readings@) {
            Some(msg) => r matches Err(e) && e.text_spec() == msg && e.kind_spec() == errors::Kind::Internal && e.class_spec() == errors::Kind::Internal,
            None => r matches Ok(m) && meta_matches(*spec, readings@, m),
        },
    decreases spec,
{
    let cli = match parse_cli_tag(spec.cli_s) {
        Ok(c) => c,
        Err(e) => {
            return Err(e);
        },
    };
    let http = match parse_http_tag(spec.http_s, spec.http_name) {
        Ok(h) => h,
        Err(e) => {
            return Err(e);
        },
    };
    match validate::parse_validate_tag(spec.validate_s) {
        Ok(_) => {},
        Err(e) => {
            return Err(e);
        },
    }
    let default = if spec.default_s.is_empty() {
        None
    } else {
        match parse_default(spec, spec.default_s, readings) {
            Ok(d) => Some(d),
            Err(e) => {
                return Err(e);
            },
        }
    };
    let enum_values = if spec.enum_s.is_empty() {
        Vec::new()
    } else {
        match parse_enum(spec.kind, spec.enum_s, readings) {
            Ok(v) => v,
            Err(e) => {
                return Err(e);
            },
        }
    };
    assert(own_error(*spec, readings@) is None);
    let elem = match &spec.elem {
        Some(e) => match meta_from_spec(e, readings) {
            Ok(m) => Some(Box::new(m)),
            Err(err) => {
                return Err(err);
            },
        },
        None => None,
    };
    let mut children: Vec<FieldMeta> = Vec::new();
    let mut i: usize = 0;
    while i < spec.children.len()
        invariant
            i <= spec.children.len(),
            children.len() == i,
            own_error(*spec, readings@) is None,
            match spec.elem {
                Some(e) => meta_error(*e, readings@) is None,
                None => true,
            },
            children_error(*spec, readings@, 0) == children_error(*spec, readings@, i as int),
            forall|j: int| 0 <= j < i ==> meta_matches(spec.children@[j], readings@, #[trigger] children@[j]),
        decreases spec.children.len() - i,
    {
        match meta_from_spec(&spec.children[i], readings) {
            Ok(m) => {
                children.push(m);
            },
            Err(err) => {
                return Err(err);
            },
        }
        i += 1;
    }
    match &spec.union {
        None => {},
        Some(u) => {
            let mut v: usize = 0;
            while v < u.variants.len()
                invariant
                    v <= u.variants.len(),
                    spec.union == Some(*u),
                    own_error(*spec, readings@) is None,
                    match spec.elem {
                        Some(e) => meta_error(*e, readings@) is None,
                        None => true,
                    },
                    children_error(*spec, readings@, 0) is None,
                    variants_error(*spec, readings@, 0, 0) == variants_error(*spec, readings@, v as int, 0),
                decreases u.variants.len() - v,
            {
                let fields = &u.variants[v].fields;
                let mut k: usize = 0;
                while k < fields.len()
                    invariant
                        k <= fields.len(),
                        v < u.variants.len(),
                        spec.union == Some(*u),
                        *fields == u.variants@[v as int].fields,
                        own_error(*spec, readings@) is None,
                        match spec.elem {
                            Some(e) => meta_error(*e, readings@) is None,
                            None => true,
                        },
                        children_error(*spec, readings@, 0) is None,
                        variants_error(*spec, readings@, 0, 0) == variants_error(*spec, readings@, v as int, k as int),
                    decreases fields.len() - k,
                {
                    match meta_from_spec(&fields[k], readings) {
                        Ok(_) => {},
                        Err(err) => {
                            return Err(err);
                        },
                    }
                    k += 1;
                }
                v += 1;
            }
        },
    }
    Ok(FieldMeta {
        name: text::owned(spec.rust_name),
        json_name: text::owned(spec.json_name),
        kind: spec.kind,
        description: text::owned(spec.desc),
        required: spec.required,
        secret: spec.secret,
        validate: text::owned(spec.validate_s),
        enum_values,
        default,
        skip: spec.skip,
        cli,
        http,
        mcp: MCPField { default: None },
        elem,
        children,
    })
}


// ------------------------------------------------------------ float literals
/// The views of (literal, 32-bit) pairs.
pub open spec fn literal_views(v: Seq<(String, bool)>) -> Seq<(Seq<char>, bool)> {
    v.map_values(|p: (String, bool)| (p.0@, p.1))
}

/// Whether a shape is a float (32 or 64 bits).
pub open spec fn float_kind(k: FieldKind) -> bool {
    k == FieldKind::F32 || k == FieldKind::F64
}

/// Each part of a list with its width.
pub open spec fn with_width(parts: Seq<Seq<char>>, single: bool) -> Seq<(Seq<char>, bool)> {
    parts.map_values(|p: Seq<char>| (p, single))
}

/// The float literals that a `default` tag gives a description to read:
/// the whole tag for a float, each non-blank part for a list of floats,
/// the element's for an optional value.
pub open spec fn default_floats(spec: FieldSpec, s: Seq<char>) -> Seq<(Seq<char>, bool)>
    decreases spec,
{
    if float_kind(spec.kind) {
        seq![(s, spec.kind == FieldKind::F32)]
    } else if spec.kind == FieldKind::Slice {
        match spec.elem {
            Some(e) => if float_kind(e.kind) {
                with_width(text::comma_list(s), e.kind == FieldKind::F32)
            } else {
                Seq::empty()
            },
            None => Seq::empty(),
        }
    } else if spec.kind == FieldKind::Ptr {
        match spec.elem {
            Some(e) => default_floats(*e, s),
            None => Seq::empty(),
        }
    } else {
        Seq::empty()
    }
}

/// The float literals of a description's own tags: its default's, then
/// its enum's non-blank parts where it is a float.
pub open spec fn own_floats(spec: FieldSpec) -> Seq<(Seq<char>, bool)> {
    (if spec.default_s@.len() > 0 {
        default_floats(spec, spec.default_s@)
    } else {
        Seq::empty()
    }) + (if spec.enum_s@.len() > 0 && float_kind(spec.kind) {
        with_width(text::comma_list(spec.enum_s@), spec.kind == FieldKind::F32)
    } else {
        Seq::empty()
    })
}

/// Every float literal that building a description's metadata reads, in
/// the order met: its own, its element's, its fields', its union
/// variants' fields'.
pub open spec fn float_uses(spec: FieldSpec) -> Seq<(Seq<char>, bool)>
    decreases spec, 2int, 0int, 0int,
{
    own_floats(spec) + match spec.elem {
        Some(e) => float_uses(*e),
        None => Seq::empty(),
    } + children_floats(spec, 0) + variant_floats(spec, 0, 0)
}

/// The float literals of a description's fields from the `i`-th on.
pub open spec fn children_floats(spec: FieldSpec, i: int) -> Seq<(Seq<char>, bool)>
    decreases spec, 1int, spec.children.len() - i, 0int,
{
    if i < 0 || i >= spec.children.len() {
        Seq::empty()
    } else {
        float_uses(spec.children@[i]) + children_floats(spec, i + 1)
    }
}

/// The float literals of a description's union variants' fields, from
/// field `i` of variant `v` on.
pub open spec fn variant_floats(spec: FieldSpec, v: int, i: int) -> Seq<(Seq<char>, bool)>
    decreases spec, 0int, variant_count(spec) - v, variant_len(spec, v) - i,
{
    if v < 0 || v >= variant_count(spec) {
        Seq::empty()
    } else if i < 0 || i >= variant_len(spec, v) {
        variant_floats(spec, v + 1, 0)
    } else {
        float_uses(spec.union->Some_0.variants@[v].fields@[i]) + variant_floats(spec, v, i + 1)
    }
}

fn append_literals(out: &mut Vec<(String, bool)>, more: Vec<(String, bool)>)
    ensures
        literal_views(final(out)@) == literal_views(old(out)@) + literal_views(more@),
{
    let ghost start = literal_views(out@);
    let mut i: usize = 0;
    while i < more.len()
        invariant
            i <= more.len(),
            literal_views(out@) == start + literal_views(more@).take(i as int),
        decreases more.len() - i,
    {
        let (t, b) = &more[i];
        let ghost before = out@;
        out.push((text::owned(t.as_str()), *b));
        assert(literal_views(out@) =~= literal_views(before) + seq![(t@, *b)]);
        assert(literal_views(more@).take(i + 1) =~= literal_views(more@).take(i as int) + seq![(t@, *b)]);
        i += 1;
    }
    assert(literal_views(more@).take(more.len() as int) =~= literal_views(more@));
}

fn widths(parts: Vec<String>, single: bool) -> (r: Vec<(String, bool)>)
    ensures
        literal_views(r@) == with_width(text::views(parts@), single),
{
    let mut out: Vec<(String, bool)> = Vec::new();
    let mut i: usize = 0;
    while i < parts.len()
        invariant
            i <= parts.len(),
            literal_views(out@) == with_width(text::views(parts@), single).take(i as int),
        decreases parts.len() - i,
    {
        let ghost before = out@;
        out.push((text::owned(parts[i].as_str()), single));
        assert(literal_views(out@) =~= literal_views(before).push((parts@[i as int]@, single)));
        assert(with_width(text::views(parts@), single)[i as int] == (parts@[i as int]@, single));
        assert(with_width(text::views(parts@), single).take(i + 1) =~= with_width(text::views(parts@), single).take(
            i as int,
        ).push((parts@[i as int]@, single)));
        i += 1;
    }
    assert(with_width(text::views(parts@), single).take(parts.len() as int) =~= with_width(
        text::views(parts@),
        single,
    ));
    out
}

fn default_literals(spec: &FieldSpec, s: &str) -> (r: Vec<(String, bool)>)
    ensures
        literal_views(r@) == default_floats(*spec, s@),
    decreases spec,
{
    match spec.kind {
        FieldKind::F32 => {
            let r = vec![(text::owned(s), true)];
            assert(literal_views(r@) =~= seq![(s@, true)]);
            r
        },
        FieldKind::F64 => {
            let r = vec![(text::owned(s), false)];
            assert(literal_views(r@) =~= seq![(s@, false)]);
            r
        },
        FieldKind::Slice => match &spec.elem {
            Some(e) => match e.kind {
                FieldKind::F32 => widths(text::comma_list_of(s), true),
                FieldKind::F64 => widths(text::comma_list_of(s), false),
                _ => {
                    let r: Vec<(String, bool)> = Vec::new();
                    assert(literal_views(r@) =~= Seq::empty());
                    r
                },
            },
            None => {
                let r: Vec<(String, bool)> = Vec::new();
                assert(literal_views(r@) =~= Seq::empty());
                r
            },
        },
        FieldKind::Ptr => match &spec.elem {
            Some(e) => default_literals(e, s),
            None => {
                let r: Vec<(String, bool)> = Vec::new();
                assert(literal_views(r@) =~= Seq::empty());
                r
            },
        },
        _ => {
            let r: Vec<(String, bool)> = Vec::new();
            assert(literal_views(r@) =~= Seq::empty());
            r
        },
    }
}

/// The float literals that [`meta_from_spec`] reads for a description,
/// each with whether it is read at 32 bits, in the order met; the caller
/// reads them and hands the readings back.
pub fn float_literals(spec: &FieldSpec) -> (r: Vec<(String, bool)>)
    ensures
        literal_views(r@) == float_uses(*spec),
    decreases spec,
{
    let mut out: Vec<(String, bool)> = Vec::new();
    assert(literal_views(out@) =~= Seq::empty());
    if !spec.default_s.is_empty() {
        let d = default_literals(spec, spec.default_s);
        append_literals(&mut out, d);
    }
    let single = match spec.kind {
        FieldKind::F32 => true,
        _ => false,
    };
    let is_float = match spec.kind {
        FieldKind::F32 | FieldKind::F64 => true,
        _ => false,
    };
    if !spec.enum_s.is_empty() && is_float {
        let w = widths(text::comma_list_of(spec.enum_s), single);
        append_literals(&mut out, w);
    }
    assert(literal_views(out@) =~= own_floats(*spec));
    match &spec.elem {
        Some(e) => {
            let more = float_literals(e);
            append_literals(&mut out, more);
        },
        None => {},
    }
    let ghost head = literal_views(out@);
    let mut i: usize = 0;
    while i < spec.children.len()
        invariant
            i <= spec.children.len(),
            head + children_floats(*spec, 0) == literal_views(out@) + children_floats(*spec, i as int),
        decreases spec.children.len() - i,
    {
        let ghost before = literal_views(out@);
        let more = float_literals(&spec.children[i]);
        append_literals(&mut out, more);
        assert(before + children_floats(*spec, i as int) =~= literal_views(out@) + children_floats(*spec, i + 1));
        i += 1;
    }
    assert(literal_views(out@) + children_floats(*spec, i as int) =~= literal_views(out@));
    let ghost mid = literal_views(out@);
    match &spec.union {
        None => {
            assert(variant_floats(*spec, 0, 0) =~= Seq::empty());
        },
        Some(u) => {
            let mut v: usize = 0;
            while v < u.variants.len()
                invariant
                    v <= u.variants.len(),
                    spec.union == Some(*u),
                    mid + variant_floats(*spec, 0, 0) == literal_views(out@) + variant_floats(*spec, v as int, 0),
                decreases u.variants.len() - v,
            {
                let fields = &u.variants[v].fields;
                let mut k: usize = 0;
                while k < fields.len()
                    invariant
                        k <= fields.len(),
                        v < u.variants.len(),
                        spec.union == Some(*u),
                        *fields == u.variants@[v as int].fields,
                        mid + variant_floats(*spec, 0, 0) == literal_views(out@) + variant_floats(
                            *spec,
                            v as int,
                            k as int,
                        ),
                    decreases fields.len() - k,
                {
                    let ghost before = literal_views(out@);
                    let more = float_literals(&fields[k]);
                    append_literals(&mut out, more);
                    assert(before + variant_floats(*spec, v as int, k as int) =~= literal_views(out@)
                        + variant_floats(*spec, v as int, k + 1));
                    k += 1;
                }
                v += 1;
            }
            assert(literal_views(out@) + variant_floats(*spec, v as int, 0) =~= literal_views(out@));
        },
    }
    assert(float_uses(*spec) =~= literal_views(out@));
    out
}

} // verus!
