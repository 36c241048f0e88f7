//! A deliberately small JSON Schema (draft-07 flavour) of argument
//! structs, as the MCP input schema and the OpenAPI document use it:
//! nested structs are inlined, properties keep the declaration order.
use vstd::prelude::*;
use crate::command::{opt_json, opt_text};
use crate::field::{self, FieldKind, FieldMeta};
use crate::json::{self, Json, JsonView};
use crate::text;

verus! {

/// A schema document; an absent member is left out when serialised.
#[derive(Debug)]
pub struct Schema {
    /// The `type` member.
    pub ty: Option<String>,
    pub description: Option<String>,
    /// The properties of an object, in order, keys unique.
    pub properties: Option<Vec<(String, Schema)>>,
    pub items: Option<Box<Schema>>,
    pub required: Option<Vec<String>>,
    /// The `enum` member.
    pub enum_values: Option<Vec<Json>>,
    pub default: Option<Json>,
    pub format: Option<String>,
}

/// A schema as plain values.
pub struct SchemaView {
    pub ty: Option<Seq<char>>,
    pub description: Option<Seq<char>>,
    pub properties: Option<Seq<(Seq<char>, SchemaView)>>,
    pub items: Option<Box<SchemaView>>,
    pub required: Option<Seq<Seq<char>>>,
    pub enum_values: Option<Seq<JsonView>>,
    pub default: Option<JsonView>,
    pub format: Option<Seq<char>>,
}

/// The plain value of a schema.
pub open spec fn schema_view(s: Schema) -> SchemaView
    decreases s,
{
    SchemaView {
        ty: opt_text(s.ty),
        description: opt_text(s.description),
        properties: match s.properties {
            Some(ps) => Some(props_view(ps@)),
            None => None,
        },
        items: match s.items {
            Some(b) => Some(Box::new(schema_view(*b))),
            None => None,
        },
        required: match s.required {
            Some(r) => Some(text::views(r@)),
            None => None,
        },
        enum_values: match s.enum_values {
            Some(v) => Some(json::items_view(v@)),
            None => None,
        },
        default: opt_json(s.default),
        format: opt_text(s.format),
    }
}

/// The plain values of a list of properties.
pub open spec fn props_view(ps: Seq<(String, Schema)>) -> Seq<(Seq<char>, SchemaView)>
    decreases ps,
{
    if ps.len() == 0 {
        Seq::empty()
    } else {
        props_view(ps.drop_last()) + seq![(ps.last().0@, schema_view(ps.last().1))]
    }
}

impl View for Schema {
    type V = SchemaView;

    open spec fn view(&self) -> SchemaView {
        schema_view(*self)
    }
}

/// The schema with no member.
pub open spec fn empty_schema() -> SchemaView {
    SchemaView {
        ty: None,
        description: None,
        properties: None,
        items: None,
        required: None,
        enum_values: None,
        default: None,
        format: None,
    }
}

/// A text member that an empty text leaves out.
pub open spec fn non_empty(s: Seq<char>) -> Option<Seq<char>> {
    if s.len() > 0 {
        Some(s)
    } else {
        None
    }
}

/// The default written into a schema: the MCP-only default wins over the
/// field's global default (the input schema is the MCP tool's contract).
pub open spec fn effective_default(f: FieldMeta) -> Option<JsonView> {
    match f.mcp.default {
        Some(d) => Some(d@),
        None => opt_json(f.default),
    }
}

/// A schema with the field's default and enum values added.
pub open spec fn decorated(f: FieldMeta, s: SchemaView) -> SchemaView {
    SchemaView {
        default: match effective_default(f) {
            Some(d) => Some(d),
            None => s.default,
        },
        enum_values: if f.enum_values@.len() > 0 {
            Some(json::items_view(f.enum_values@))
        } else {
            s.enum_values
        },
        ..s
    }
}

/// A schema of one type with an optional description and format.
pub open spec fn typed(ty: Seq<char>, f: FieldMeta, format: Option<Seq<char>>) -> SchemaView {
    SchemaView { ty: Some(ty), description: non_empty(f.description@), format, ..empty_schema() }
}

/// The first place of `key` in `props` from `i` on (the length if none).
pub open spec fn key_place(props: Seq<(Seq<char>, SchemaView)>, key: Seq<char>, i: int) -> int
    decreases props.len() - i,
{
    if i < 0 || i >= props.len() {
        props.len() as int
    } else if props[i].0 == key {
        i
    } else {
        key_place(props, key, i + 1)
    }
}

/// `props` with `key` set to `v`: an existing key keeps its place and
/// takes the new value, a new key goes last.
pub open spec fn put_prop(props: Seq<(Seq<char>, SchemaView)>, key: Seq<char>, v: SchemaView) -> Seq<(Seq<char>, SchemaView)> {
    let k = key_place(props, key, 0);
    if k < props.len() {
        props.update(k, (key, v))
    } else {
        props.push((key, v))
    }
}

/// The schema of one field.
pub open spec fn field_schema_spec(f: FieldMeta) -> SchemaView
    decreases f,
{
    match f.kind {
        FieldKind::Bytes => decorated(f, typed("string"@, f, None)),
        FieldKind::Duration => decorated(f, typed("string"@, f, Some("duration"@))),
        FieldKind::Time => decorated(f, typed("string"@, f, Some("date-time"@))),
        FieldKind::Slice => decorated(
            f,
            SchemaView {
                items: match f.elem {
                    Some(e) => Some(Box::new(field_schema_spec(*e))),
                    None => None,
                },
                ..typed("array"@, f, None)
            },
        ),
        FieldKind::Struct => SchemaView {
            properties: Some(props_spec(f.children@)),
            required: required_spec(f.children@),
            ..typed("object"@, f, None)
        },
        FieldKind::Ptr => {
            let base = match f.elem {
                Some(e) => field_schema_spec(*e),
                None => empty_schema(),
            };
            SchemaView {
                description: if f.description@.len() > 0 {
                    Some(f.description@)
                } else {
                    base.description
                },
                ..decorated(f, base)
            }
        },
        _ => decorated(f, typed(field::schema_type_spec(f.kind), f, None)),
    }
}

/// The properties of an object of these fields: skipped fields are left
/// out.
pub open spec fn props_spec(fs: Seq<FieldMeta>) -> Seq<(Seq<char>, SchemaView)>
    decreases fs,
{
    if fs.len() == 0 {
        Seq::empty()
    } else {
        let p = props_spec(fs.drop_last());
        let f = fs.last();
        if f.skip {
            p
        } else {
            put_prop(p, f.json_name@, field_schema_spec(f))
        }
    }
}

/// The JSON names of the required fields that are not skipped.
pub open spec fn required_names(fs: Seq<FieldMeta>) -> Seq<Seq<char>>
    decreases fs.len(),
{
    if fs.len() == 0 {
        Seq::empty()
    } else {
        let f = fs.last();
        required_names(fs.drop_last()) + if !f.skip && f.required {
            seq![f.json_name@]
        } else {
            Seq::empty()
        }
    }
}

/// The `required` member: left out when no field is required.
pub open spec fn required_spec(fs: Seq<FieldMeta>) -> Option<Seq<Seq<char>>> {
    if required_names(fs).len() > 0 {
        Some(required_names(fs))
    } else {
        None
    }
}

/// The object schema of a list of top-level fields (an argument root).
pub open spec fn build_schema_spec(fs: Seq<FieldMeta>) -> SchemaView {
    SchemaView {
        ty: Some("object"@),
        properties: Some(props_spec(fs)),
        required: required_spec(fs),
        ..empty_schema()
    }
}

/// The schema with no member.
fn no_schema() -> (s: Schema)
    ensures
        s@ == empty_schema(),
{
    Schema {
        ty: None,
        description: None,
        properties: None,
        items: None,
        required: None,
        enum_values: None,
        default: None,
        format: None,
    }
}

fn clone_values(v: &Vec<Json>) -> (r: Vec<Json>)
    ensures
        json::items_view(r@) == json::items_view(v@),
{
    let mut out: Vec<Json> = Vec::new();
    let mut i: usize = 0;
    while i < v.len()
        invariant
            i <= v.len(),
            json::items_view(out@) == json::items_view(v@.take(i as int)),
        decreases v.len() - i,
    {
        let c = json::clone_json(&v[i]);
        let ghost before = out@;
        out.push(c);
        proof {
            assert(out@.drop_last() == before);
            assert(v@.take(i + 1).drop_last() == v@.take(i as int));
        }
        i += 1;
    }
    assert(v@.take(v.len() as int) == v@);
    out
}

fn some_text(s: &str) -> (r: Option<String>)
    ensures
        opt_text(r) == Some(s@),
{
    Some(text::owned(s))
}

fn non_empty_of(s: &String) -> (r: Option<String>)
    ensures
        opt_text(r) == non_empty(s@),
{
    if s.as_str().is_empty() {
        None
    } else {
        Some(s.clone())
    }
}

fn effective_default_of(f: &FieldMeta) -> (r: Option<Json>)
    ensures
        opt_json(r) == effective_default(*f),
{
    match &f.mcp.default {
        Some(d) => Some(json::clone_json(d)),
        None => match &f.default {
            Some(d) => Some(json::clone_json(d)),
            None => None,
        },
    }
}

fn decorate(f: &FieldMeta, s: &mut Schema)
    ensures
        final(s)@ == decorated(*f, old(s)@),
{
    match effective_default_of(f) {
        Some(d) => {
            s.default = Some(d);
        },
        None => {},
    }
    if f.enum_values.len() > 0 {
        s.enum_values = Some(clone_values(&f.enum_values));
    }
}

fn typed_of(ty: &str, f: &FieldMeta, format: Option<&str>) -> (s: Schema)
    ensures
        s@ == typed(ty@, *f, match format {
            Some(x) => Some(x@),
            None => None,
        }),
{
    let mut s = no_schema();
    s.ty = some_text(ty);
    s.description = non_empty_of(&f.description);
    match format {
        Some(x) => {
            s.format = some_text(x);
        },
        None => {},
    }
    s
}

/// Sets property `key` to `v`.
fn put_prop_exec(props: &mut Vec<(String, Schema)>, key: String, v: Schema)
    ensures
        props_view(final(props)@) == put_prop(props_view(old(props)@), key@, v@),
{
    let ghost pv = props_view(props@);
    proof {
        lemma_props_view_index(props@);
    }
    let mut i: usize = 0;
    while i < props.len()
        invariant
            i <= props.len(),
            pv == props_view(props@),
            props@ == old(props)@,
            pv.len() == props@.len(),
            forall|j: int| 0 <= j < props@.len() ==> (#[trigger] pv[j]).0 == props@[j].0@,
            key_place(pv, key@, 0) == key_place(pv, key@, i as int),
        decreases props.len() - i,
    {
        if text::str_eq(props[i].0.as_str(), key.as_str()) {
            let ghost kv = key@;
            let ghost vv = v@;
            assert(pv[i as int].0 == kv);
            assert(key_place(pv, kv, i as int) == i as int);
            let ghost before = props@;
            props.set(i, (key, v));
            proof {
                lemma_props_view_index(before);
                lemma_props_view_index(props@);
                assert(props_view(props@) =~= pv.update(i as int, (kv, vv)));
            }
            return;
        }
        i += 1;
    }
    let ghost kv = key@;
    let ghost vv = v@;
    let ghost before = props@;
    props.push((key, v));
    proof {
        assert(props@.drop_last() == before);
        assert(key_place(pv, kv, 0) == pv.len());
        assert(props_view(props@) == pv.push((kv, vv)));
    }
}

/// The keys of a property list are the keys of its view, index by index.
proof fn lemma_props_view_index(ps: Seq<(String, Schema)>)
    ensures
        props_view(ps).len() == ps.len(),
        forall|j: int| 0 <= j < ps.len() ==> #[trigger] props_view(ps)[j] == (ps[j].0@, schema_view(ps[j].1)),
    decreases ps.len(),
{
    if ps.len() > 0 {
        lemma_props_view_index(ps.drop_last());
        assert forall|j: int| 0 <= j < ps.len() implies #[trigger] props_view(ps)[j] == (
            ps[j].0@,
            schema_view(ps[j].1),
        ) by {
            if j < ps.len() - 1 {
                assert(ps.drop_last()[j] == ps[j]);
            }
        }
    }
}

/// The schema of one field.
pub fn field_schema(f: &FieldMeta) -> (s: Schema)
    ensures
        s@ == field_schema_spec(*f),
    decreases f,
{
    match f.kind {
        FieldKind::Bytes => {
            let mut s = typed_of("string", f, None);
            decorate(f, &mut s);
            s
        },
        FieldKind::Duration => {
            let mut s = typed_of("string", f, Some("duration"));
            decorate(f, &mut s);
            s
        },
        FieldKind::Time => {
            let mut s = typed_of("string", f, Some("date-time"));
            decorate(f, &mut s);
            s
        },
        FieldKind::Slice => {
            let mut s = typed_of("array", f, None);
            match &f.elem {
                Some(e) => {
                    proof {
                        assert(decreases_to!(*f => f.elem));
                    }
                    let es = field_schema(&**e);
                    s.items = Some(Box::new(es));
                },
                None => {},
            }
            decorate(f, &mut s);
            s
        },
        FieldKind::Struct => {
            let mut s = typed_of("object", f, None);
            proof {
                assert(decreases_to!(*f => f.children));
            }
            let (props, req) = object_parts(&f.children);
            s.properties = Some(props);
            s.required = req;
            s
        },
        FieldKind::Ptr => {
            let mut s = match &f.elem {
                Some(e) => {
                    proof {
                        assert(decreases_to!(*f => f.elem));
                    }
                    field_schema(&**e)
                },
                None => no_schema(),
            };
            if !f.description.as_str().is_empty() {
                s.description = Some(f.description.clone());
            }
            decorate(f, &mut s);
            s
        },
        _ => {
            let mut s = typed_of(f.kind.schema_type(), f, None);
            decorate(f, &mut s);
            s
        },
    }
}

/// The properties and the `required` member of an object of these fields.
fn object_parts(fields: &Vec<FieldMeta>) -> (r: (Vec<(String, Schema)>, Option<Vec<String>>))
    ensures
        props_view(r.0@) == props_spec(fields@),
        match r.1 {
            Some(v) => required_spec(fields@) == Some(text::views(v@)),
            None => required_spec(fields@) is None,
        },
    decreases fields,
{
    let mut props: Vec<(String, Schema)> = Vec::new();
    let mut required: Vec<String> = Vec::new();
    let mut i: usize = 0;
    while i < fields.len()
        invariant
            i <= fields.len(),
            props_view(props@) == props_spec(fields@.take(i as int)),
            text::views(required@) == required_names(fields@.take(i as int)),
        decreases fields.len() - i,
    {
        let f = &fields[i];
        proof {
            assert(fields@.take(i + 1).drop_last() == fields@.take(i as int));
            assert(fields@.take(i + 1).last() == *f);
        }
        if !f.skip {
            proof {
                assert(decreases_to!(*fields => fields[i as int]));
            }
            let fs = field_schema(f);
            put_prop_exec(&mut props, f.json_name.clone(), fs);
            if f.required {
                let ghost before = text::views(required@);
                required.push(f.json_name.clone());
                assert(text::views(required@) == before.push(f.json_name@));
            }
        }
        i += 1;
    }
    assert(fields@.take(fields.len() as int) == fields@);
    if required.len() > 0 {
        (props, Some(required))
    } else {
        (props, None)
    }
}

/// The object schema of a list of top-level fields (an argument root).
pub fn build_schema(fields: &Vec<FieldMeta>) -> (s: Schema)
    ensures
        s@ == build_schema_spec(fields@),
{
    let (props, required) = object_parts(fields);
    let mut s = no_schema();
    s.ty = some_text("object");
    s.properties = Some(props);
    s.required = required;
    s
}

/// The MCP-only default replaces the global default in the schema of a
/// scalar, a duration, a time, a byte string or a list.
pub proof fn lemma_mcp_default_wins(f: FieldMeta)
    requires
        f.mcp.default is Some,
        f.kind != FieldKind::Struct,
    ensures
        field_schema_spec(f).default == Some(f.mcp.default->0@),
{
}

/// A skipped field never shows in an object's properties or required
/// names, whatever else the list holds.
pub proof fn lemma_skipped_left_out(fs: Seq<FieldMeta>, f: FieldMeta)
    requires
        f.skip,
    ensures
        props_spec(fs.push(f)) == props_spec(fs),
        required_names(fs.push(f)) == required_names(fs),
{
    assert(fs.push(f).drop_last() == fs);
}

} // verus!
