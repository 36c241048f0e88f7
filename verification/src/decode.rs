//! The depth guard of argument decoding: nested argument structs are
//! decoded level by level, and a self-referential type is refused once
//! the nesting passes a fixed depth.
use vstd::prelude::*;
use crate::errors;
use crate::field::FieldMeta;
use crate::json::{self, Json, JsonView};
use crate::text;

verus! {

/// The deepest nesting of argument structs that decoding follows.
pub const MAX_DECODE_DEPTH: usize = 20;

/// Counts the argument-struct levels being decoded; a level entered with
/// [`DepthGuard::enter`] is left with [`DepthGuard::leave`].
#[derive(Debug)]
pub struct DepthGuard {
    depth: usize,
}

impl DepthGuard {
    #[verifier::type_invariant]
    spec fn within_limit(&self) -> bool {
        self.depth <= MAX_DECODE_DEPTH
    }

    /// The number of levels entered and not yet left.
    pub closed spec fn level(&self) -> nat {
        self.depth as nat
    }

    /// A guard outside any level.
    pub fn new() -> (g: DepthGuard)
        ensures
            g.level() == 0,
    {
        DepthGuard { depth: 0 }
    }

    /// The number of levels entered and not yet left.
    pub fn depth(&self) -> (d: usize)
        ensures
            d == self.level(),
            d <= MAX_DECODE_DEPTH,
    {
        proof {
            use_type_invariant(self);
        }
        self.depth
    }

    /// Enters one more level; at [`MAX_DECODE_DEPTH`] levels the nesting is
    /// refused and the count stays.
    pub fn enter(&mut self) -> (r: Result<(), errors::Error>)
        ensures
            old(self).level() < MAX_DECODE_DEPTH ==> r is Ok && final(self).level() == old(
                self,
            ).level() + 1,
            old(self).level() >= MAX_DECODE_DEPTH ==> r is Err && final(self).level() == old(
                self,
            ).level(),
            match r {
                Ok(()) => true,
                Err(e) => e.kind_spec() == errors::Kind::InvalidInput && e.class_spec() == errors::Kind::InvalidInput && e.text_spec()
                    == "argument struct nesting exceeds 20 levels (recursive type?)"@,
            },
    {
        proof {
            use_type_invariant(&*self);
        }
        if self.depth >= MAX_DECODE_DEPTH {
            let m = text::owned("argument struct nesting exceeds 20 levels (recursive type?)");
            proof {
                reveal_strlit("argument struct nesting exceeds 20 levels (recursive type?)");
            }
            return Err(errors::new(errors::Kind::InvalidInput, m));
        }
        self.depth = self.depth + 1;
        Ok(())
    }

    /// Leaves the innermost level.
    pub fn leave(&mut self)
        requires
            old(self).level() > 0,
        ensures
            final(self).level() == old(self).level() - 1,
    {
        proof {
            use_type_invariant(&*self);
        }
        self.depth = self.depth - 1;
    }
}

/// The JSON type name used in decoding messages.
pub open spec fn type_name_spec(v: Json) -> Seq<char> {
    match v {
        Json::Null => "null"@,
        Json::Bool(_) => "bool"@,
        Json::Number(_) => "number"@,
        Json::Str(_) => "string"@,
        Json::Array(_) => "array"@,
        Json::Object(_) => "object"@,
    }
}

/// The JSON type name of a value.
pub fn json_type_name(v: &Json) -> (r: &'static str)
    ensures
        r@ == type_name_spec(*v),
{
    match v {
        Json::Null => "null",
        Json::Bool(_) => "bool",
        Json::Number(_) => "number",
        Json::Str(_) => "string",
        Json::Array(_) => "array",
        Json::Object(_) => "object",
    }
}

/// The object branch of argument decoding: the value must be an object,
/// and one more nesting level is entered.
pub fn object_arg<'a>(v: &'a Json, guard: &mut DepthGuard) -> (r: Result<
    &'a Vec<(String, Json)>,
    errors::Error,
>)
    ensures
        match r {
            Ok(es) => *v == Json::Object(*es) && old(guard).level() < MAX_DECODE_DEPTH
                && final(guard).level() == old(guard).level() + 1,
            Err(e) => e.kind_spec() == errors::Kind::InvalidInput && e.class_spec() == errors::Kind::InvalidInput && final(guard).level() == old(
                guard,
            ).level() && if v is Object {
                old(guard).level() >= MAX_DECODE_DEPTH && e.text_spec()
                    == "argument struct nesting exceeds 20 levels (recursive type?)"@
            } else {
                e.text_spec() == "expect object, got "@ + type_name_spec(*v)
            },
        },
{
    match v {
        Json::Object(es) => {
            match guard.enter() {
                Ok(()) => Ok(es),
                Err(e) => Err(e),
            }
        },
        _ => {
            let mut m = text::owned("expect object, got ");
            text::append(&mut m, json_type_name(v));
            proof {
                reveal_strlit("expect object, got ");
            }
            Err(errors::new(errors::Kind::InvalidInput, m))
        },
    }
}

/// A boolean argument: a JSON boolean, or a text in the accepted boolean
/// spellings; anything else is invalid input.
pub fn decode_bool(v: &Json) -> (r: Result<bool, errors::Error>)
    ensures
        match *v {
            Json::Bool(b) => r == Ok::<bool, errors::Error>(b),
            Json::Str(s) => match crate::scalar::bool_of(s@) {
                Some(b) => r == Ok::<bool, errors::Error>(b),
                None => r matches Err(e) && e.kind_spec() == errors::Kind::InvalidInput && e.class_spec() == errors::Kind::InvalidInput && e.text_spec()
                    == "expect boolean, got "@ + text::quoted(s@),
            },
            _ => r matches Err(e) && e.kind_spec() == errors::Kind::InvalidInput && e.class_spec() == errors::Kind::InvalidInput && e.text_spec()
                == "expect boolean, got "@ + type_name_spec(*v),
        },
{
    match v {
        Json::Bool(b) => Ok(*b),
        Json::Str(s) => match crate::scalar::parse_bool(s.as_str()) {
            Ok(b) => Ok(b),
            Err(m) => {
                proof {
                    reveal_strlit("expect boolean, got ");
                }
                Err(errors::new(errors::Kind::InvalidInput, m))
            },
        },
        _ => {
            let mut m = text::owned("expect boolean, got ");
            text::append(&mut m, json_type_name(v));
            proof {
                reveal_strlit("expect boolean, got ");
            }
            Err(errors::new(errors::Kind::InvalidInput, m))
        },
    }
}

/// A text argument: a JSON string, or a number as its JSON text;
/// anything else is invalid input.
pub fn decode_string(v: &Json) -> (r: Result<String, errors::Error>)
    ensures
        match *v {
            Json::Str(s) => r matches Ok(x) && x@ == s@,
            Json::Number(n) => r matches Ok(x) && x@ == n@,
            _ => r matches Err(e) && e.kind_spec() == errors::Kind::InvalidInput && e.class_spec() == errors::Kind::InvalidInput && e.text_spec()
                == "expect string, got "@ + type_name_spec(*v),
        },
{
    match v {
        Json::Str(s) => Ok(s.clone()),
        Json::Number(n) => Ok(n.clone()),
        _ => {
            let mut m = text::owned("expect string, got ");
            text::append(&mut m, json_type_name(v));
            proof {
                reveal_strlit("expect string, got ");
            }
            Err(errors::new(errors::Kind::InvalidInput, m))
        },
    }
}


/// The decoder's check that the metadata it walks has one entry per
/// field it decodes.
pub fn expect_meta_len(meta: &[FieldMeta], expect: usize) -> (r: Result<(), errors::Error>)
    ensures
        r is Ok <==> meta@.len() == expect,
        r matches Err(e) ==> e.kind_spec() == errors::Kind::Internal && e.class_spec() == errors::Kind::Internal && e.text_spec() == "internal: field meta len "@
            + text::decimal(meta@.len() as nat) + " != "@ + text::decimal(expect as nat),
{
    if meta.len() != expect {
        let mut m = text::owned("internal: field meta len ");
        let a = text::decimal_of(meta.len() as u64);
        text::append(&mut m, a.as_str());
        text::append(&mut m, " != ");
        let b = text::decimal_of(expect as u64);
        text::append(&mut m, b.as_str());
        proof {
            reveal_strlit("internal: field meta len ");
        }
        return Err(errors::new(errors::Kind::Internal, m));
    }
    Ok(())
}


/// Where a field's value is taken from when an argument map is decoded.
#[derive(Debug, PartialEq, Eq, Structural)]
pub enum Source {
    /// The argument under the field's key.
    Given,
    /// The field's default.
    Default,
    /// The zero value of the field's shape.
    Zero,
}

/// The refusal of a required field that has no value.
pub open spec fn required_message(named: Seq<char>) -> Seq<char> {
    "field "@ + text::quoted(named) + " is required"@
}

/// Where a field's value comes from: the argument under `key` where it is
/// present and not null; else the field's default; else a refusal for a
/// required field (naming it `named`); else the zero value.
pub open spec fn source_spec(fi: FieldMeta, args: Seq<(String, Json)>, key: Seq<char>, named: Seq<char>) -> Result<
    Source,
    Seq<char>,
> {
    if json::member(args, key) matches Some(v) && !(v is Null) {
        Ok(Source::Given)
    } else if fi.default is Some {
        Ok(Source::Default)
    } else if fi.required {
        Err(required_message(named))
    } else {
        Ok(Source::Zero)
    }
}

/// Decides where a field's value comes from (see [`source_spec`]); a
/// missing required field is invalid input.
pub fn field_source(fi: &FieldMeta, args: &Vec<(String, Json)>, key: &str, named: &str) -> (r: Result<
    Source,
    errors::Error,
>)
    ensures
        match source_spec(*fi, args@, key@, named@) {
            Ok(src) => r == Ok::<Source, errors::Error>(src),
            Err(m) => r matches Err(e) && e.text_spec() == m && e.kind_spec() == errors::Kind::InvalidInput && e.class_spec() == errors::Kind::InvalidInput,
        },
{
    match json::get_member(args, key) {
        Some(Json::Null) => {},
        Some(_) => {
            return Ok(Source::Given);
        },
        None => {},
    }
    if fi.default.is_some() {
        return Ok(Source::Default);
    }
    if fi.required {
        let mut m = text::owned("field ");
        let q = text::quote(named);
        text::append(&mut m, q.as_str());
        text::append(&mut m, " is required");
        proof {
            reveal_strlit("field ");
        }
        return Err(errors::new(errors::Kind::InvalidInput, m));
    }
    Ok(Source::Zero)
}

/// A conversion error of a field's value, under the field's name; it keeps
/// the error's kind.
pub fn field_error(fi: &FieldMeta, e: &errors::Error) -> (r: errors::Error)
    ensures
        r.kind_spec() == e.kind_spec(),
        r.text_spec() == "field "@ + text::quoted(fi.json_name@) + ": "@ + e.text_spec(),
{
    let mut m = text::owned("field ");
    let q = text::quote(fi.json_name.as_str());
    text::append(&mut m, q.as_str());
    text::append(&mut m, ": ");
    let t = e.to_text();
    text::append(&mut m, t.as_str());
    proof {
        reveal_strlit("field ");
    }
    errors::new(e.kind(), m)
}

/// How an allowed value is listed: a string as is, anything else as its
/// JSON text.
pub open spec fn choice_text(v: JsonView) -> Seq<char> {
    match v {
        JsonView::Str(s) => s,
        _ => json::json_compact(v),
    }
}

/// The allowed values, space separated.
pub open spec fn choices_text(vs: Seq<JsonView>) -> Seq<char>
    decreases vs.len(),
{
    if vs.len() == 0 {
        Seq::empty()
    } else if vs.len() == 1 {
        choice_text(vs[0])
    } else {
        choices_text(vs.drop_last()) + " "@ + choice_text(vs.last())
    }
}

/// The refusal of a value outside a field's enum.
pub fn enum_refusal(fi: &FieldMeta) -> (r: errors::Error)
    ensures
        r.kind_spec() == errors::Kind::InvalidInput && r.class_spec() == errors::Kind::InvalidInput,
        r.text_spec() == "field "@ + text::quoted(fi.json_name@) + ": value must be one of ["@ + choices_text(
            json::items_view(fi.enum_values@),
        ) + "]"@,
{
    let mut m = text::owned("field ");
    let q = text::quote(fi.json_name.as_str());
    text::append(&mut m, q.as_str());
    text::append(&mut m, ": value must be one of [");
    let ghost start = m@;
    let mut i: usize = 0;
    while i < fi.enum_values.len()
        invariant
            i <= fi.enum_values.len(),
            m@ == start + choices_text(json::items_view(fi.enum_values@.take(i as int))),
        decreases fi.enum_values.len() - i,
    {
        let ghost before = m@;
        proof {
            assert(fi.enum_values@.take(i + 1).drop_last() == fi.enum_values@.take(i as int));
        }
        if i > 0 {
            text::append(&mut m, " ");
        }
        match &fi.enum_values[i] {
            Json::Str(s) => {
                text::append(&mut m, s.as_str());
            },
            other => {
                let t = json::compact_json(other);
                text::append(&mut m, t.as_str());
            },
        }
        proof {
            let t = fi.enum_values@.take(i + 1);
            assert(t.last() == fi.enum_values@[i as int]);
            json::lemma_items_len(t);
            json::lemma_items_len(fi.enum_values@.take(i as int));
            assert(json::items_view(t).drop_last() == json::items_view(fi.enum_values@.take(i as int)));
            assert(json::items_view(t).last() == json::json_view(fi.enum_values@[i as int]));
            assert(m@ == start + choices_text(json::items_view(t)));
        }
        i += 1;
    }
    assert(fi.enum_values@.take(fi.enum_values.len() as int) == fi.enum_values@);
    text::append(&mut m, "]");
    proof {
        reveal_strlit("field ");
    }
    errors::new(errors::Kind::InvalidInput, m)
}

} // verus!
