//! The plan of the OpenAPI document of the HTTP frontend: which commands
//! appear, in which order and under which path and method, their
//! parameter tables and whether they take a request body.
use vstd::prelude::*;
use crate::command::HTTPHints;
use crate::field::{FieldKind, FieldMeta};
use crate::httpapi;
use crate::rename;
use crate::text;

verus! {

/// The sort key of a command's route: its path, a space, its method.
pub open spec fn route_key(h: HTTPHints) -> Seq<char> {
    h.path@ + " "@ + h.method@
}

/// The keys of the commands that declare a route, in registry order.
pub open spec fn routed_keys(hs: Seq<HTTPHints>) -> Seq<Seq<char>>
    decreases hs.len(),
{
    if hs.len() == 0 {
        Seq::empty()
    } else {
        let h = hs.last();
        routed_keys(hs.drop_last()) + if !h.skip && h.method@.len() > 0 && h.path@.len() > 0 {
            seq![route_key(h)]
        } else {
            Seq::empty()
        }
    }
}

/// Where `k` goes into the ordered `s`: after every key it does not come
/// before, scanning from the end (equal keys keep their order).
pub open spec fn insert_pos(s: Seq<Seq<char>>, k: Seq<char>) -> int
    decreases s.len(),
{
    if s.len() == 0 {
        0
    } else if text::lex_lt(k, s.last()) {
        insert_pos(s.drop_last(), k)
    } else {
        s.len() as int
    }
}

/// The keys in order.
pub open spec fn sort_keys(ks: Seq<Seq<char>>) -> Seq<Seq<char>>
    decreases ks.len(),
{
    if ks.len() == 0 {
        Seq::empty()
    } else {
        let s = sort_keys(ks.drop_last());
        s.insert(insert_pos(s, ks.last()), ks.last())
    }
}

/// Keys in non-decreasing order.
pub open spec fn ordered(s: Seq<Seq<char>>) -> bool {
    forall|i: int, j: int| 0 <= i < j < s.len() ==> !text::lex_lt(#[trigger] s[j], #[trigger] s[i])
}

/// The place of the last space of `k` (-1 when there is none).
pub open spec fn last_space(k: Seq<char>) -> int
    decreases k.len(),
{
    if k.len() == 0 {
        -1
    } else if k.last() == ' ' {
        k.len() - 1
    } else {
        last_space(k.drop_last())
    }
}

/// The first command (in registry order) with this path and method.
pub open spec fn find_route(hs: Seq<HTTPHints>, path: Seq<char>, method: Seq<char>, i: int) -> Option<int>
    decreases hs.len() - i,
{
    if i < 0 || i >= hs.len() {
        None
    } else if hs[i].path@ == path && hs[i].method@ == method {
        Some(i)
    } else {
        find_route(hs, path, method, i + 1)
    }
}

/// One operation of the document: the command, its path and its method
/// in lower case.
pub struct OperationView {
    pub entry: int,
    pub path: Seq<char>,
    pub method: Seq<char>,
}

/// The operation of one key: split at its last space into path and
/// method, served by the first command with that path and method.
pub open spec fn key_operation(hs: Seq<HTTPHints>, k: Seq<char>) -> Option<OperationView> {
    let sp = last_space(k);
    if sp < 0 {
        None
    } else {
        let path = k.take(sp);
        let method = k.skip(sp + 1);
        match find_route(hs, path, method, 0) {
            Some(e) => Some(OperationView { entry: e, path, method: rename::lowered(method) }),
            None => None,
        }
    }
}

/// The operations for a list of keys, in order.
pub open spec fn operations_of(hs: Seq<HTTPHints>, ks: Seq<Seq<char>>) -> Seq<OperationView>
    decreases ks.len(),
{
    if ks.len() == 0 {
        Seq::empty()
    } else {
        operations_of(hs, ks.drop_last()) + match key_operation(hs, ks.last()) {
            Some(op) => seq![op],
            None => Seq::empty(),
        }
    }
}

/// The operations of the document: the routes of the commands ordered
/// by `path method`.
pub open spec fn operations_spec(hs: Seq<HTTPHints>) -> Seq<OperationView> {
    operations_of(hs, sort_keys(routed_keys(hs)))
}

/// One operation of the document.
#[derive(Debug)]
pub struct Operation {
    /// The index of the command that serves it.
    pub entry: usize,
    pub path: String,
    /// The method in lower case, as the document keys it.
    pub method: String,
}

impl View for Operation {
    type V = OperationView;

    open spec fn view(&self) -> OperationView {
        OperationView { entry: self.entry as int, path: self.path@, method: self.method@ }
    }
}

fn key_of(h: &HTTPHints) -> (r: String)
    ensures
        r@ == route_key(*h),
{
    let mut k = h.path.clone();
    text::append(&mut k, " ");
    text::append(&mut k, h.method.as_str());
    k
}

fn insert_key(s: &mut Vec<String>, k: String)
    ensures
        text::views(final(s)@) == text::views(old(s)@).insert(insert_pos(text::views(old(s)@), k@), k@),
{
    let ghost sv = text::views(s@);
    let mut pos: usize = s.len();
    assert(sv.take(s.len() as int) == sv);
    while pos > 0 && text::str_lt(k.as_str(), s[pos - 1].as_str())
        invariant
            pos <= s.len(),
            sv == text::views(s@),
            insert_pos(sv, k@) == insert_pos(sv.take(pos as int), k@),
        decreases pos,
    {
        proof {
            assert(sv.take(pos as int).last() == sv[pos - 1]);
            assert(sv.take(pos as int).drop_last() == sv.take(pos - 1));
        }
        pos -= 1;
    }
    proof {
        if pos > 0 {
            assert(sv.take(pos as int).last() == sv[pos - 1]);
        }
        assert(insert_pos(sv.take(pos as int), k@) == pos);
    }
    let ghost kv = k@;
    s.insert(pos, k);
    assert(text::views(s@) =~= sv.insert(pos as int, kv));
}

fn last_space_of(k: &[char]) -> (r: Option<usize>)
    ensures
        match r {
            Some(i) => last_space(k@) == i as int && i < k@.len(),
            None => last_space(k@) == -1,
        },
{
    let mut i: usize = k.len();
    assert(k@.take(k.len() as int) == k@);
    while i > 0
        invariant
            i <= k.len(),
            last_space(k@) == last_space(k@.take(i as int)),
        decreases i,
    {
        proof {
            assert(k@.take(i as int).last() == k@[i - 1]);
            assert(k@.take(i as int).drop_last() == k@.take(i - 1));
        }
        if k[i - 1] == ' ' {
            return Some(i - 1);
        }
        i -= 1;
    }
    None
}

fn find_route_of(hs: &[HTTPHints], path: &str, method: &str) -> (r: Option<usize>)
    ensures
        match r {
            Some(i) => find_route(hs@, path@, method@, 0) == Some(i as int) && i < hs@.len(),
            None => find_route(hs@, path@, method@, 0) is None,
        },
{
    let mut i: usize = 0;
    while i < hs.len()
        invariant
            i <= hs.len(),
            find_route(hs@, path@, method@, 0) == find_route(hs@, path@, method@, i as int),
        decreases hs.len() - i,
    {
        if text::str_eq(hs[i].path.as_str(), path) && text::str_eq(hs[i].method.as_str(), method) {
            return Some(i);
        }
        i += 1;
    }
    None
}

/// The operations of the document for the commands whose HTTP
/// configurations are `hints` (in registry order): each declared route,
/// ordered by `path method`, served by the first command with that path
/// and method.
pub fn openapi_operations(hints: &[HTTPHints]) -> (r: Vec<Operation>)
    ensures
        r@.map_values(|o: Operation| o@) == operations_spec(hints@),
{
    let ghost hs = hints@;
    let mut keys: Vec<String> = Vec::new();
    let mut i: usize = 0;
    while i < hints.len()
        invariant
            i <= hints.len(),
            hs == hints@,
            text::views(keys@) == sort_keys(routed_keys(hs.take(i as int))),
        decreases hints.len() - i,
    {
        let h = &hints[i];
        proof {
            assert(hs.take(i + 1).drop_last() == hs.take(i as int));
            assert(hs.take(i + 1).last() == *h);
        }
        if !h.skip && !h.method.as_str().is_empty() && !h.path.as_str().is_empty() {
            let k = key_of(h);
            proof {
                let rk = routed_keys(hs.take(i as int));
                assert(routed_keys(hs.take(i + 1)) == rk.push(k@));
                assert(rk.push(k@).drop_last() == rk);
            }
            insert_key(&mut keys, k);
        } else {
            proof {
                let rk = routed_keys(hs.take(i as int));
                assert(routed_keys(hs.take(i + 1)) == rk + Seq::<Seq<char>>::empty());
                assert(rk + Seq::<Seq<char>>::empty() == rk);
            }
        }
        i += 1;
    }
    assert(hs.take(hints.len() as int) == hs);
    let ghost ks = text::views(keys@);
    let mut out: Vec<Operation> = Vec::new();
    let mut j: usize = 0;
    while j < keys.len()
        invariant
            j <= keys.len(),
            hs == hints@,
            ks == text::views(keys@),
            out@.map_values(|o: Operation| o@) == operations_of(hs, ks.take(j as int)),
        decreases keys.len() - j,
    {
        proof {
            assert(ks.take(j + 1).drop_last() == ks.take(j as int));
            assert(ks.take(j + 1).last() == keys@[j as int]@);
        }
        let ghost before = out@.map_values(|o: Operation| o@);
        let cs = text::chars_of(keys[j].as_str());
        match last_space_of(cs.as_slice()) {
            Some(sp) => {
                let n = cs.len();
                assert(sp < n);
                let path = text::string_of(text::slice_of(cs.as_slice(), 0, sp).as_slice());
                let method = text::string_of(text::slice_of(cs.as_slice(), sp + 1, cs.len()).as_slice());
                proof {
                    assert(cs@.subrange(0, sp as int) == cs@.take(sp as int));
                    assert(cs@.subrange(sp + 1, cs@.len() as int) == cs@.skip(sp + 1));
                }
                match find_route_of(hints, path.as_str(), method.as_str()) {
                    Some(e) => {
                        let lower = rename::to_lower(method.as_str());
                        let op = Operation { entry: e, path, method: lower };
                        let ghost ov = op@;
                        out.push(op);
                        assert(out@.map_values(|o: Operation| o@) =~= before.push(ov));
                    },
                    None => {
                        assert(before + Seq::<OperationView>::empty() == before);
                    },
                }
            },
            None => {
                assert(before + Seq::<OperationView>::empty() == before);
            },
        }
        j += 1;
    }
    assert(ks.take(keys.len() as int) == ks);
    out
}

// ------------------------------------------------------------ ordering
/// The keys an insertion point is after do not come after the key, and
/// the key comes before every key it is put in front of.
proof fn lemma_insert_pos(s: Seq<Seq<char>>, k: Seq<char>)
    ensures
        0 <= insert_pos(s, k) <= s.len(),
        forall|j: int| insert_pos(s, k) <= j < s.len() ==> text::lex_lt(k, #[trigger] s[j]),
        insert_pos(s, k) > 0 ==> !text::lex_lt(k, s[insert_pos(s, k) - 1]),
    decreases s.len(),
{
    if s.len() > 0 && text::lex_lt(k, s.last()) {
        lemma_insert_pos(s.drop_last(), k);
        assert forall|j: int| insert_pos(s, k) <= j < s.len() implies text::lex_lt(k, #[trigger] s[j]) by {
            if j < s.len() - 1 {
                assert(s.drop_last()[j] == s[j]);
            }
        }
    }
}

/// Inserting at the insertion point keeps keys ordered.
proof fn lemma_insert_ordered(s: Seq<Seq<char>>, k: Seq<char>)
    requires
        ordered(s),
    ensures
        ordered(s.insert(insert_pos(s, k), k)),
{
    lemma_insert_pos(s, k);
    let p = insert_pos(s, k);
    let t = s.insert(p, k);
    assert forall|i: int, j: int| 0 <= i < j < t.len() implies !text::lex_lt(#[trigger] t[j], #[trigger] t[i]) by {
        if i < p && j == p {
            // t[i] = s[i] <= s[p - 1], and k is not before s[p - 1].
            assert(t[i] == s[i]);
            if text::lex_lt(k, s[i]) {
                if i < p - 1 {
                    assert(!text::lex_lt(s[p - 1], s[i]));
                    text::lemma_lex_total(s[i], s[p - 1]);
                    if s[i] != s[p - 1] {
                        text::lemma_lex_transitive(k, s[i], s[p - 1]);
                    }
                }
            }
        } else if i == p && j > p {
            // k comes before t[j] = s[j - 1].
            assert(t[j] == s[j - 1]);
            assert(text::lex_lt(k, s[j - 1]));
            if text::lex_lt(s[j - 1], k) {
                text::lemma_lex_transitive(k, s[j - 1], k);
                text::lemma_lex_irreflexive(k);
            }
        } else if i < p && j > p {
            assert(t[i] == s[i]);
            assert(t[j] == s[j - 1]);
        } else if j < p {
            assert(t[i] == s[i] && t[j] == s[j]);
        } else {
            assert(t[i] == s[i - 1] && t[j] == s[j - 1]);
        }
    }
}

/// The document lists its routes in `path method` order: the sorted keys
/// never have a key after one it comes before.
pub proof fn lemma_sorted_keys_ordered(ks: Seq<Seq<char>>)
    ensures
        ordered(sort_keys(ks)),
        sort_keys(ks).len() == ks.len(),
    decreases ks.len(),
{
    if ks.len() > 0 {
        lemma_sorted_keys_ordered(ks.drop_last());
        lemma_insert_pos(sort_keys(ks.drop_last()), ks.last());
        lemma_insert_ordered(sort_keys(ks.drop_last()), ks.last());
    }
}

// ------------------------------------------------------------ operations
/// The JSON type of a parameter: booleans, integers, numbers, arrays and
/// objects by their shape, everything else a string.
pub open spec fn param_type_spec(k: FieldKind) -> Seq<char> {
    match k {
        FieldKind::Bool => "boolean"@,
        FieldKind::I8 | FieldKind::I16 | FieldKind::I32 | FieldKind::I64 | FieldKind::U8
        | FieldKind::U16 | FieldKind::U32 | FieldKind::U64 => "integer"@,
        FieldKind::F32 | FieldKind::F64 => "number"@,
        FieldKind::Slice => "array"@,
        FieldKind::Struct => "object"@,
        _ => "string"@,
    }
}

/// The JSON type of a parameter.
pub fn param_type(k: FieldKind) -> (r: &'static str)
    ensures
        r@ == param_type_spec(k),
{
    match k {
        FieldKind::Bool => "boolean",
        FieldKind::I8 | FieldKind::I16 | FieldKind::I32 | FieldKind::I64 | FieldKind::U8
        | FieldKind::U16 | FieldKind::U32 | FieldKind::U64 => "integer",
        FieldKind::F32 | FieldKind::F64 => "number",
        FieldKind::Slice => "array",
        FieldKind::Struct => "object",
        _ => "string",
    }
}

/// One parameter of an operation.
#[derive(Debug)]
pub struct Param {
    pub name: String,
    /// `path` or `query`.
    pub location: String,
    pub required: bool,
    pub ty: &'static str,
}

/// A parameter as plain values.
pub struct ParamView {
    pub name: Seq<char>,
    pub location: Seq<char>,
    pub required: bool,
    pub ty: Seq<char>,
}

impl View for Param {
    type V = ParamView;

    open spec fn view(&self) -> ParamView {
        ParamView { name: self.name@, location: self.location@, required: self.required, ty: self.ty@ }
    }
}

/// The parameter table: the fields bound to the path or, explicitly, to
/// the query (skipped fields left out), by their wire names.
pub open spec fn params_spec(fs: Seq<FieldMeta>) -> Seq<ParamView>
    decreases fs.len(),
{
    if fs.len() == 0 {
        Seq::empty()
    } else {
        let f = fs.last();
        params_spec(fs.drop_last()) + if !f.skip && (f.http.location@ == "path"@ || f.http.location@
            == "query"@) {
            seq![
                ParamView {
                    name: httpapi::http_name_spec(f),
                    location: f.http.location@,
                    required: f.required,
                    ty: param_type_spec(f.kind),
                },
            ]
        } else {
            Seq::empty()
        }
    }
}

/// The parameter table of an operation.
pub fn operation_params(fields: &Vec<FieldMeta>) -> (r: Vec<Param>)
    ensures
        r@.map_values(|p: Param| p@) == params_spec(fields@),
{
    let mut out: Vec<Param> = Vec::new();
    let mut i: usize = 0;
    while i < fields.len()
        invariant
            i <= fields.len(),
            out@.map_values(|p: Param| p@) == params_spec(fields@.take(i as int)),
        decreases fields.len() - i,
    {
        let f = &fields[i];
        proof {
            assert(fields@.take(i + 1).drop_last() == fields@.take(i as int));
            assert(fields@.take(i + 1).last() == *f);
            reveal_strlit("path");
            reveal_strlit("query");
        }
        let ghost before = out@.map_values(|p: Param| p@);
        let loc = f.http.location.as_str();
        if !f.skip && (text::str_eq(loc, "path") || text::str_eq(loc, "query")) {
            let p = Param {
                name: text::owned(httpapi::http_name(f)),
                location: f.http.location.clone(),
                required: f.required,
                ty: param_type(f.kind),
            };
            let ghost pv = p@;
            out.push(p);
            assert(out@.map_values(|p: Param| p@) =~= before.push(pv));
        } else {
            assert(before + Seq::<ParamView>::empty() == before);
        }
        i += 1;
    }
    assert(fields@.take(fields.len() as int) == fields@);
    out
}

/// Whether an operation takes the input schema as its JSON request body:
/// `POST`, `PUT` and `PATCH` do.
pub fn has_request_body(method: &str) -> (r: bool)
    ensures
        r == (method@ == "POST"@ || method@ == "PUT"@ || method@ == "PATCH"@),
{
    text::str_eq(method, "POST") || text::str_eq(method, "PUT") || text::str_eq(method, "PATCH")
}

} // verus!
