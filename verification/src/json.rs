//! A plain-value model of a JSON document, as the frontends hand results
//! over: objects keep their members as (key, value) pairs, numbers keep
//! their printed form.  Reading JSON bytes and writing JSON text are
//! `serde_json`'s, reached through the wrappers below.
use vstd::prelude::*;

verus! {

/// A JSON value.
#[derive(Debug)]
pub enum Json {
    Null,
    Bool(bool),
    /// A number, by its JSON text (such as `42` or `2.5`).
    Number(String),
    Str(String),
    Array(Vec<Json>),
    /// An object's members; keys are unique.
    Object(Vec<(String, Json)>),
}

/// A JSON value as plain values.
pub enum JsonView {
    Null,
    Bool(bool),
    Number(Seq<char>),
    Str(Seq<char>),
    Array(Seq<JsonView>),
    Object(Seq<(Seq<char>, JsonView)>),
}

/// The plain value of a JSON value.
pub open spec fn json_view(j: Json) -> JsonView
    decreases j,
{
    match j {
        Json::Null => JsonView::Null,
        Json::Bool(b) => JsonView::Bool(b),
        Json::Number(n) => JsonView::Number(n@),
        Json::Str(s) => JsonView::Str(s@),
        Json::Array(items) => JsonView::Array(items_view(items@)),
        Json::Object(es) => JsonView::Object(members_view(es@)),
    }
}

/// The plain values of array items.
pub open spec fn items_view(s: Seq<Json>) -> Seq<JsonView>
    decreases s,
{
    if s.len() == 0 {
        Seq::empty()
    } else {
        items_view(s.drop_last()) + seq![json_view(s.last())]
    }
}

/// The plain values of object members.
pub open spec fn members_view(s: Seq<(String, Json)>) -> Seq<(Seq<char>, JsonView)>
    decreases s,
{
    if s.len() == 0 {
        Seq::empty()
    } else {
        members_view(s.drop_last()) + seq![(s.last().0@, json_view(s.last().1))]
    }
}

impl View for Json {
    type V = JsonView;

    open spec fn view(&self) -> JsonView {
        json_view(*self)
    }
}

/// A copy of a JSON value.
pub fn clone_json(v: &Json) -> (r: Json)
    ensures
        r@ == v@,
    decreases v,
{
    match v {
        Json::Null => Json::Null,
        Json::Bool(b) => Json::Bool(*b),
        Json::Number(n) => Json::Number(n.clone()),
        Json::Str(s) => Json::Str(s.clone()),
        Json::Array(items) => {
            let mut out: Vec<Json> = Vec::new();
            let mut i: usize = 0;
            while i < items.len()
                invariant
                    i <= items.len(),
                    *v == Json::Array(*items),
                    items_view(out@) == items_view(items@.take(i as int)),
                decreases items.len() - i,
            {
                proof {
                    assert((*v)->Array_0 == *items);
                    assert(decreases_to!(*v => (*v)->Array_0));
                    assert(decreases_to!(*items => items[i as int]));
                }
                let c = clone_json(&items[i]);
                let ghost before = out@;
                out.push(c);
                proof {
                    assert(out@.drop_last() == before);
                    assert(items@.take(i + 1).drop_last() == items@.take(i as int));
                }
                i += 1;
            }
            assert(items@.take(items.len() as int) == items@);
            Json::Array(out)
        },
        Json::Object(es) => {
            let mut out: Vec<(String, Json)> = Vec::new();
            let mut i: usize = 0;
            while i < es.len()
                invariant
                    i <= es.len(),
                    *v == Json::Object(*es),
                    members_view(out@) == members_view(es@.take(i as int)),
                decreases es.len() - i,
            {
                proof {
                    assert((*v)->Object_0 == *es);
                    assert(decreases_to!(*v => (*v)->Object_0));
                    assert(decreases_to!(*es => es[i as int]));
                    assert(decreases_to!(es[i as int] => es[i as int].1));
                }
                let c = clone_json(&es[i].1);
                let ghost before = out@;
                out.push((es[i].0.clone(), c));
                proof {
                    assert(out@.drop_last() == before);
                    assert(es@.take(i + 1).drop_last() == es@.take(i as int));
                }
                i += 1;
            }
            assert(es@.take(es.len() as int) == es@);
            Json::Object(out)
        },
    }
}

// ------------------------------------------------- serde_json at the edge
#[verifier::external_type_specification]
#[verifier::external_body]
pub struct ExValue(serde_json::Value);

/// What `serde_json::from_slice::<serde_json::Value>` gives for these
/// bytes, as a plain value: `None` where they are not one JSON document.
pub uninterp spec fn json_parse(bytes: Seq<u8>) -> Option<JsonView>;

/// The text `serde_json::to_string_pretty` writes for a value.
pub uninterp spec fn json_pretty(j: JsonView) -> Seq<char>;

/// The text `serde_json::to_string` writes for a value (compact, members
/// in their order).
pub uninterp spec fn json_compact(j: JsonView) -> Seq<char>;

/// A `serde_json` value as a library value, variant for variant (numbers
/// by their `serde_json` text, members in the map's order).
#[verifier::external_body]
fn from_serde(v: serde_json::Value) -> Json {
    match v {
        serde_json::Value::Null => Json::Null,
        serde_json::Value::Bool(b) => Json::Bool(b),
        serde_json::Value::Number(n) => Json::Number(n.to_string()),
        serde_json::Value::String(s) => Json::Str(s),
        serde_json::Value::Array(items) => Json::Array(items.into_iter().map(from_serde).collect()),
        serde_json::Value::Object(m) => Json::Object(m.into_iter().map(|(k, v)| (k, from_serde(v))).collect()),
    }
}

/// A library value as a `serde_json` value, variant for variant; a number
/// text that `serde_json` does not read as a number becomes `null`.
#[verifier::external_body]
fn to_serde(j: &Json) -> serde_json::Value {
    match j {
        Json::Null => serde_json::Value::Null,
        Json::Bool(b) => serde_json::Value::Bool(*b),
        Json::Number(n) => serde_json::from_str(n).map_or(serde_json::Value::Null, serde_json::Value::Number),
        Json::Str(s) => serde_json::Value::String(s.clone()),
        Json::Array(items) => serde_json::Value::Array(items.iter().map(to_serde).collect()),
        Json::Object(es) => serde_json::Value::Object(es.iter().map(|(k, v)| (k.clone(), to_serde(v))).collect()),
    }
}

/// `serde_json::from_slice::<serde_json::Value>`: the JSON document the
/// bytes hold, if they hold one. What that is for given bytes is left to
/// the name `json_parse`.
#[verifier::external_body]
pub fn parse_json(bytes: &[u8]) -> (r: Option<Json>)
    ensures
        match json_parse(bytes@) {
            Some(v) => r matches Some(j) && j@ == v,
            None => r is None,
        },
{
    serde_json::from_slice::<serde_json::Value>(bytes).ok().map(from_serde)
}

/// `serde_json::to_string_pretty` of a value. Serialising a
/// `serde_json::Value` does not fail; the text is left to the name
/// `json_pretty`.
#[verifier::external_body]
pub fn pretty_json(j: &Json) -> (s: String)
    ensures
        s@ == json_pretty(j@),
{
    serde_json::to_string_pretty(&to_serde(j)).unwrap_or_default()
}

/// `serde_json::to_string` of a value. Serialising a `serde_json::Value`
/// does not fail; the text is left to the name `json_compact`.
#[verifier::external_body]
pub fn compact_json(j: &Json) -> (s: String)
    ensures
        s@ == json_compact(j@),
{
    serde_json::to_string(&to_serde(j)).unwrap_or_default()
}

/// The value of the first member named `key`.
pub open spec fn member(es: Seq<(String, Json)>, key: Seq<char>) -> Option<Json>
    decreases es.len(),
{
    if es.len() == 0 {
        None
    } else if es[0].0@ == key {
        Some(es[0].1)
    } else {
        member(es.drop_first(), key)
    }
}

/// The text of a string value.
pub open spec fn str_of(v: Option<Json>) -> Option<Seq<char>> {
    match v {
        Some(Json::Str(s)) => Some(s@),
        _ => None,
    }
}

/// Looks up the member named `key` of an object's members.
pub fn get_member<'a>(es: &'a Vec<(String, Json)>, key: &str) -> (r: Option<&'a Json>)
    ensures
        match r {
            Some(v) => member(es@, key@) == Some(*v),
            None => member(es@, key@) is None,
        },
{
    let mut i: usize = 0;
    assert(es@.skip(0) == es@);
    while i < es.len()
        invariant
            i <= es.len(),
            member(es@, key@) == member(es@.skip(i as int), key@),
        decreases es.len() - i,
    {
        let e = &es[i];
        assert(es@.skip(i as int)[0] == es@[i as int]);
        assert(es@.skip(i as int).drop_first() == es@.skip(i + 1));
        if crate::text::str_eq(e.0.as_str(), key) {
            return Some(&e.1);
        }
        i += 1;
    }
    None
}

/// The text of a string member, if the member exists and is a string.
pub fn get_str<'a>(es: &'a Vec<(String, Json)>, key: &str) -> (r: Option<&'a String>)
    ensures
        match r {
            Some(s) => str_of(member(es@, key@)) == Some(s@),
            None => str_of(member(es@, key@)) is None,
        },
{
    match get_member(es, key) {
        Some(Json::Str(s)) => Some(s),
        _ => None,
    }
}


/// The plain values of array items are as many as the items.
pub proof fn lemma_items_len(s: Seq<Json>)
    ensures
        items_view(s).len() == s.len(),
    decreases s.len(),
{
    if s.len() > 0 {
        lemma_items_len(s.drop_last());
    }
}

} // verus!
