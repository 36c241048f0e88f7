//! Request binding helpers of the HTTP frontend: percent-decoding, the
//! urlencoded query/form pairs, path parameters by route template, and
//! the message an error answer carries.
use vstd::prelude::*;
use vstd::string::StringSliceAdditionalSpecFns;
use vstd::utf8::{decode_utf8, encode_utf8, valid_utf8};
use crate::cli::app::{arg_views, key_pos, map_put, map_set};
use crate::cli::parse;
use crate::command::{self, Frontend, HTTPHints};
use crate::errors;
use crate::field::{FieldKind, FieldMeta};
use crate::json::{Json, JsonView};
use crate::text;

verus! {

/// std's lossy UTF-8 decoding of bytes (`String::from_utf8_lossy`).
pub uninterp spec fn lossy_utf8(b: Seq<u8>) -> Seq<char>;

/// `String::from_utf8_lossy`: valid UTF-8 decodes to its characters; an
/// invalid sequence becomes U+FFFD (what it becomes is left to the name).
#[verifier::external_body]
fn from_utf8_lossy(b: &[u8]) -> (r: String)
    ensures
        r@ == lossy_utf8(b@),
        valid_utf8(b@) ==> r@ == decode_utf8(b@),
{
    String::from_utf8_lossy(b).into_owned()
}

/// The value of a hexadecimal digit byte.
pub open spec fn hex_spec(b: u8) -> Option<u8> {
    if 48 <= b <= 57 {
        Some((b - 48) as u8)
    } else if 97 <= b <= 102 {
        Some((b - 97 + 10) as u8)
    } else if 65 <= b <= 70 {
        Some((b - 65 + 10) as u8)
    } else {
        None
    }
}

/// The value of a hexadecimal digit, if there is a byte and it is one.
pub fn hex_val(b: Option<&u8>) -> (r: Option<u8>)
    ensures
        r == match b {
            Some(x) => hex_spec(*x),
            None => None,
        },
{
    match b {
        Some(x) => {
            let v = *x;
            if 48 <= v && v <= 57 {
                Some(v - 48)
            } else if 97 <= v && v <= 102 {
                Some(v - 97 + 10)
            } else if 65 <= v && v <= 70 {
                Some(v - 65 + 10)
            } else {
                None
            }
        },
        None => None,
    }
}

/// Percent-decoding of bytes: `%XY` with two hexadecimal digits gives
/// that byte, `+` gives a space, anything else stays.
pub open spec fn pct_bytes(s: Seq<u8>) -> Seq<u8>
    decreases s.len(),
{
    if s.len() == 0 {
        Seq::empty()
    } else if s[0] == 37 && s.len() >= 3 && hex_spec(s[1]) is Some && hex_spec(s[2]) is Some {
        seq![(hex_spec(s[1])->Some_0 * 16 + hex_spec(s[2])->Some_0) as u8] + pct_bytes(s.skip(3))
    } else if s[0] == 43 {
        seq![32u8] + pct_bytes(s.skip(1))
    } else {
        seq![s[0]] + pct_bytes(s.skip(1))
    }
}

/// The percent-decoded text (bytes that are not UTF-8 decoded lossily).
pub open spec fn pct_text(t: Seq<char>) -> Seq<char> {
    lossy_utf8(pct_bytes(encode_utf8(t)))
}

/// Percent-decodes a query or form component.
pub fn pct_decode(s: &str) -> (r: String)
    ensures
        r@ == pct_text(s@),
{
    let bytes = s.as_bytes();
    let ghost bs = s.spec_bytes();
    let mut out: Vec<u8> = Vec::new();
    let mut i: usize = 0;
    assert(bs.skip(0) == bs);
    assert(out@ + pct_bytes(bs.skip(0)) == pct_bytes(bs));
    while i < bytes.len()
        invariant
            i <= bytes.len(),
            bytes@ == bs,
            out@ + pct_bytes(bs.skip(i as int)) == pct_bytes(bs),
        decreases bytes.len() - i,
    {
        let ghost rest = bs.skip(i as int);
        assert(rest[0] == bytes[i as int]);
        if bytes[i] == 37 && i + 1 < bytes.len() {
            let h = hex_val(if i + 1 < bytes.len() { Some(&bytes[i + 1]) } else { None });
            let l = hex_val(if i + 2 < bytes.len() { Some(&bytes[i + 2]) } else { None });
            if let (Some(h), Some(l)) = (h, l) {
                proof {
                    assert(rest[1] == bytes[i + 1]);
                    assert(rest[2] == bytes[i + 2]);
                    assert(rest.skip(3) == bs.skip(i + 3));
                }
                let ghost before = out@;
                out.push(h * 16 + l);
                assert(out@ == before + seq![(h * 16 + l) as u8]);
                i += 3;
                continue;
            }
        }
        proof {
            assert(rest.skip(1) == bs.skip(i + 1));
            if bytes[i as int] == 37 && rest.len() >= 3 {
                assert(rest[1] == bytes[i + 1]);
                assert(rest[2] == bytes[i + 2]);
            }
        }
        let ghost before = out@;
        if bytes[i] == 43 {
            out.push(32);
        } else {
            out.push(bytes[i]);
        }
        assert(out@ == before + seq![out@[before.len() as int]]);
        i += 1;
    }
    assert(bs.skip(i as int).len() == 0);
    assert(out@ + Seq::<u8>::empty() == out@);
    from_utf8_lossy(out.as_slice())
}

/// One `key=value` pair (a pair without `=` has an empty value), both
/// sides percent-decoded.
pub open spec fn pair_of(p: Seq<char>) -> (Seq<char>, Seq<char>) {
    let (k, has, v) = parse::long_parts(p);
    (pct_text(k), if has {
        pct_text(v)
    } else {
        Seq::empty()
    })
}

/// The pairs of the non-empty pieces.
pub open spec fn pairs_of(pieces: Seq<Seq<char>>) -> Seq<(Seq<char>, Seq<char>)>
    decreases pieces.len(),
{
    if pieces.len() == 0 {
        Seq::empty()
    } else {
        pairs_of(pieces.drop_last()) + if pieces.last().len() > 0 {
            seq![pair_of(pieces.last())]
        } else {
            Seq::empty()
        }
    }
}

/// The urlencoded pairs of a query or form body: split at `&`, empty
/// pieces dropped.
pub open spec fn form_spec(s: Seq<char>) -> Seq<(Seq<char>, Seq<char>)> {
    pairs_of(text::split(s, '&'))
}

/// The views of `(key, value)` pairs.
pub open spec fn pair_views(v: Seq<(String, String)>) -> Seq<(Seq<char>, Seq<char>)> {
    v.map_values(|e: (String, String)| (e.0@, e.1@))
}

/// Parses a query string or urlencoded form body into its pairs.
pub fn parse_form_query(s: &str) -> (r: Vec<(String, String)>)
    ensures
        pair_views(r@) == form_spec(s@),
{
    let cs = text::chars_of(s);
    let pieces = text::split_chars(cs.as_slice(), '&');
    let ghost ps = text::split(s@, '&');
    let mut out: Vec<(String, String)> = Vec::new();
    let mut i: usize = 0;
    assert(ps.take(0) == Seq::<Seq<char>>::empty());
    while i < pieces.len()
        invariant
            i <= pieces.len(),
            ps == text::split(s@, '&'),
            pieces@.len() == ps.len(),
            forall|k: int| 0 <= k < pieces@.len() ==> (#[trigger] pieces@[k])@ == ps[k],
            pair_views(out@) == pairs_of(ps.take(i as int)),
        decreases pieces.len() - i,
    {
        proof {
            assert(ps.take(i + 1).drop_last() == ps.take(i as int));
            assert(ps.take(i + 1).last() == pieces@[i as int]@);
        }
        let ghost before = pair_views(out@);
        if pieces[i].len() > 0 {
            let piece = text::string_of(pieces[i].as_slice());
            let (k, has, v) = parse::split_long(piece.as_str());
            let key = pct_decode(k.as_str());
            let val = if has {
                pct_decode(v.as_str())
            } else {
                String::new()
            };
            out.push((key, val));
            assert(pair_views(out@) == before + seq![pair_of(ps[i as int])]);
        } else {
            assert(before + Seq::<(Seq<char>, Seq<char>)>::empty() == before);
        }
        i += 1;
    }
    assert(ps.take(pieces.len() as int) == ps);
    out
}

/// The values of `key` among the pairs, in order.
pub open spec fn values_of(pairs: Seq<(Seq<char>, Seq<char>)>, key: Seq<char>) -> Seq<Seq<char>>
    decreases pairs.len(),
{
    if pairs.len() == 0 {
        Seq::empty()
    } else {
        values_of(pairs.drop_last(), key) + if pairs.last().0 == key {
            seq![pairs.last().1]
        } else {
            Seq::empty()
        }
    }
}

/// Every value of `key` in a query string; `None` when there is none.
pub fn query_values(query: &str, key: &str) -> (r: Option<Vec<String>>)
    ensures
        match r {
            Some(vs) => text::views(vs@) == values_of(form_spec(query@), key@) && vs@.len() > 0,
            None => values_of(form_spec(query@), key@).len() == 0,
        },
{
    let pairs = parse_form_query(query);
    let ghost pv = pair_views(pairs@);
    let mut hit: Vec<String> = Vec::new();
    let mut i: usize = 0;
    assert(pv.take(0) == Seq::<(Seq<char>, Seq<char>)>::empty());
    while i < pairs.len()
        invariant
            i <= pairs.len(),
            pv == pair_views(pairs@),
            text::views(hit@) == values_of(pv.take(i as int), key@),
        decreases pairs.len() - i,
    {
        proof {
            assert(pv.take(i + 1).drop_last() == pv.take(i as int));
            assert(pv.take(i + 1).last() == (pairs@[i as int].0@, pairs@[i as int].1@));
        }
        let ghost before = text::views(hit@);
        if text::str_eq(pairs[i].0.as_str(), key) {
            hit.push(pairs[i].1.clone());
            assert(text::views(hit@) == before + seq![pairs@[i as int].1@]);
        } else {
            assert(before + Seq::<Seq<char>>::empty() == before);
        }
        i += 1;
    }
    assert(pv.take(pairs.len() as int) == pv);
    if hit.len() == 0 {
        None
    } else {
        Some(hit)
    }
}

/// The name inside `{name}`, if the segment is one.
pub open spec fn param_name(seg: Seq<char>) -> Option<Seq<char>> {
    if seg.len() >= 2 && seg[0] == '{' && seg.last() == '}' {
        Some(seg.subrange(1, seg.len() - 1))
    } else {
        None
    }
}

/// The first segment position at which the template names parameter
/// `name`, from `k` on.
pub open spec fn param_pos(t: Seq<Seq<char>>, name: Seq<char>, k: int) -> Option<int>
    decreases t.len() - k,
{
    if k >= t.len() || k < 0 {
        None
    } else if param_name(t[k]) == Some(name) {
        Some(k)
    } else {
        param_pos(t, name, k + 1)
    }
}

/// The value of path parameter `name`: the path segment (percent-decoded)
/// under the first `{name}` segment of the template, when template and
/// path have as many segments.
pub open spec fn path_param_spec(template: Seq<char>, path: Seq<char>, name: Seq<char>) -> Option<Seq<char>> {
    let t = text::split(template, '/');
    let p = text::split(path, '/');
    if t.len() != p.len() {
        None
    } else {
        match param_pos(t, name, 0) {
            Some(k) => Some(pct_text(p[k])),
            None => None,
        }
    }
}

/// The value of path parameter `name` (the route already matched).
pub fn path_param(template: &str, path: &str, name: &str) -> (r: Option<String>)
    ensures
        match r {
            Some(v) => path_param_spec(template@, path@, name@) == Some(v@),
            None => path_param_spec(template@, path@, name@) is None,
        },
{
    let tc = text::chars_of(template);
    let pc = text::chars_of(path);
    let ts = text::split_chars(tc.as_slice(), '/');
    let psegs = text::split_chars(pc.as_slice(), '/');
    let ghost tv = text::split(template@, '/');
    let ghost pv = text::split(path@, '/');
    if ts.len() != psegs.len() {
        return None;
    }
    let mut k: usize = 0;
    while k < ts.len()
        invariant
            k <= ts.len(),
            ts@.len() == tv.len(),
            psegs@.len() == pv.len(),
            tv.len() == pv.len(),
            tv == text::split(template@, '/'),
            pv == text::split(path@, '/'),
            forall|j: int| 0 <= j < ts@.len() ==> (#[trigger] ts@[j])@ == tv[j],
            forall|j: int| 0 <= j < psegs@.len() ==> (#[trigger] psegs@[j])@ == pv[j],
            param_pos(tv, name@, 0) == param_pos(tv, name@, k as int),
        decreases ts.len() - k,
    {
        let seg = &ts[k];
        assert(seg@ == tv[k as int]);
        let n = seg.len();
        if n >= 2 && seg[0] == '{' && seg[n - 1] == '}' {
            let inner = text::string_of(text::slice_of(seg.as_slice(), 1, n - 1).as_slice());
            if text::str_eq(inner.as_str(), name) {
                let p = text::string_of(psegs[k].as_slice());
                return Some(pct_decode(p.as_str()));
            }
        }
        k += 1;
    }
    None
}

/// The message of an error answer: the cause's rendering when there is a
/// cause, else the error's own.
pub open spec fn cause_message_spec(e: errors::Error) -> Seq<char> {
    match e.cause_spec() {
        Some(c) => c.text_spec(),
        None => e.text_spec(),
    }
}

/// The message of an error answer.
pub fn cause_message(e: &errors::Error) -> (r: String)
    ensures
        r@ == cause_message_spec(*e),
{
    match e.cause() {
        Some(c) => c.to_text(),
        None => e.to_text(),
    }
}

// ------------------------------------------------------------ binding
/// The name of a field on the wire: its http name override, else its
/// JSON name, else its Rust name.
pub open spec fn http_name_spec(f: FieldMeta) -> Seq<char> {
    if f.http.name@.len() > 0 {
        f.http.name@
    } else if f.json_name@.len() > 0 {
        f.json_name@
    } else {
        f.name@
    }
}

/// The name of a field on the wire.
pub fn http_name(f: &FieldMeta) -> (r: &str)
    ensures
        r@ == http_name_spec(*f),
{
    if !f.http.name.as_str().is_empty() {
        return f.http.name.as_str();
    }
    if !f.json_name.as_str().is_empty() {
        return f.json_name.as_str();
    }
    f.name.as_str()
}

/// The request headers as plain values: each name in lower case with its
/// value, or none where the value is not visible ASCII text.
pub open spec fn header_views(hs: Seq<(String, Option<String>)>) -> Seq<(Seq<char>, Option<Seq<char>>)> {
    hs.map_values(
        |h: (String, Option<String>)|
            (
                h.0@,
                match h.1 {
                    Some(v) => Some(v@),
                    None => None,
                },
            ),
    )
}

/// The first header named `name` (names compare in any ASCII case), if
/// its value is non-empty text.
pub open spec fn header_value(hs: Seq<(Seq<char>, Option<Seq<char>>)>, name: Seq<char>) -> Option<Seq<char>>
    decreases hs.len(),
{
    if hs.len() == 0 {
        None
    } else if text::lower(hs[0].0) == text::lower(name) {
        match hs[0].1 {
            Some(v) => if v.len() > 0 {
                Some(v)
            } else {
                None
            },
            None => None,
        }
    } else {
        header_value(hs.drop_first(), name)
    }
}

fn header_get<'a>(hs: &'a Vec<(String, Option<String>)>, name: &str) -> (r: Option<&'a String>)
    ensures
        match r {
            Some(v) => header_value(header_views(hs@), name@) == Some(v@),
            None => header_value(header_views(hs@), name@) is None,
        },
{
    let ghost hv = header_views(hs@);
    let ln = text::to_ascii_lower(name);
    let mut i: usize = 0;
    assert(hv.skip(0) == hv);
    while i < hs.len()
        invariant
            i <= hs.len(),
            hv == header_views(hs@),
            ln@ == text::lower(name@),
            header_value(hv, name@) == header_value(hv.skip(i as int), name@),
        decreases hs.len() - i,
    {
        assert(hv.skip(i as int)[0] == hv[i as int]);
        assert(hv.skip(i as int).drop_first() == hv.skip(i + 1));
        let hn = text::to_ascii_lower(hs[i].0.as_str());
        if text::str_eq(hn.as_str(), ln.as_str()) {
            return match &hs[i].1 {
                Some(v) => if !v.as_str().is_empty() {
                    Some(v)
                } else {
                    None
                },
                None => None,
            };
        }
        i += 1;
    }
    None
}

/// The request as the binding reads it.
pub struct RequestView {
    pub route: Seq<char>,
    pub path: Seq<char>,
    pub query: Seq<char>,
    pub headers: Seq<(Seq<char>, Option<Seq<char>>)>,
    pub form: Seq<(Seq<char>, Seq<char>)>,
}

/// `m` with `k` set to `v` unless `k` is already there.
pub open spec fn map_add(m: Seq<(Seq<char>, JsonView)>, k: Seq<char>, v: JsonView) -> Seq<(Seq<char>, JsonView)> {
    if key_pos(m, k) is Some {
        m
    } else {
        m.push((k, v))
    }
}

/// The channel defaults (`serve --default k=v`), each only where no key
/// is set yet.
pub open spec fn add_defaults(m: Seq<(Seq<char>, JsonView)>, ds: Seq<(Seq<char>, Seq<char>)>) -> Seq<(Seq<char>, JsonView)>
    decreases ds.len(),
{
    if ds.len() == 0 {
        m
    } else {
        map_add(add_defaults(m, ds.drop_last()), ds.last().0, JsonView::Str(ds.last().1))
    }
}

/// The members of a JSON body object, each set in turn.
pub open spec fn put_all(m: Seq<(Seq<char>, JsonView)>, es: Seq<(Seq<char>, JsonView)>) -> Seq<(Seq<char>, JsonView)>
    decreases es.len(),
{
    if es.len() == 0 {
        m
    } else {
        map_set(put_all(m, es.drop_last()), es.last().0, es.last().1)
    }
}

/// The first value of a form key.
pub open spec fn form_value(form: Seq<(Seq<char>, Seq<char>)>, key: Seq<char>) -> Option<Seq<char>>
    decreases form.len(),
{
    if form.len() == 0 {
        None
    } else if form[0].0 == key {
        Some(form[0].1)
    } else {
        form_value(form.drop_first(), key)
    }
}

/// What field `f` adds to the arguments from the request: a skipped
/// field only a header value under its Rust name; otherwise its value
/// from the query (all values for a list), a header, the path or the
/// form body, by its location.
pub open spec fn bind_field(m: Seq<(Seq<char>, JsonView)>, f: FieldMeta, rq: RequestView) -> Seq<(Seq<char>, JsonView)> {
    let loc = f.http.location@;
    if f.skip {
        if loc == "header"@ {
            match header_value(rq.headers, http_name_spec(f)) {
                Some(v) => map_set(m, f.name@, JsonView::Str(v)),
                None => m,
            }
        } else {
            m
        }
    } else if loc.len() == 0 || loc == "query"@ {
        let vs = values_of(form_spec(rq.query), f.json_name@);
        if vs.len() == 0 {
            m
        } else if f.kind == FieldKind::Slice {
            map_set(m, f.json_name@, JsonView::Array(vs.map_values(|v: Seq<char>| JsonView::Str(v))))
        } else {
            map_set(m, f.json_name@, JsonView::Str(vs[0]))
        }
    } else if loc == "header"@ {
        match header_value(rq.headers, http_name_spec(f)) {
            Some(v) => map_set(m, f.json_name@, JsonView::Str(v)),
            None => m,
        }
    } else if loc == "path"@ {
        match path_param_spec(rq.route, rq.path, http_name_spec(f)) {
            Some(v) => map_set(m, f.json_name@, JsonView::Str(v)),
            None => m,
        }
    } else if loc == "form"@ {
        match form_value(rq.form, f.json_name@) {
            Some(v) => map_set(m, f.json_name@, JsonView::Str(v)),
            None => m,
        }
    } else {
        m
    }
}

/// The fields' values bound in order.
pub open spec fn bind_fields(m: Seq<(Seq<char>, JsonView)>, fs: Seq<FieldMeta>, rq: RequestView) -> Seq<(Seq<char>, JsonView)>
    decreases fs.len(),
{
    if fs.len() == 0 {
        m
    } else {
        bind_field(bind_fields(m, fs.drop_last(), rq), fs.last(), rq)
    }
}

/// The value bound under key `k`, if any.
pub open spec fn arg_lookup(m: Seq<(Seq<char>, JsonView)>, k: Seq<char>) -> Option<JsonView> {
    match key_pos(m, k) {
        Some(i) => Some(m[i].1),
        None => None,
    }
}

/// Where `key_pos` points: an entry under the key with none after it.
proof fn lemma_key_pos_last(s: Seq<(Seq<char>, JsonView)>, k: Seq<char>)
    ensures
        match key_pos(s, k) {
            Some(i) => 0 <= i < s.len() && s[i].0 == k && forall|j: int| i < j < s.len() ==> #[trigger] s[j].0 != k,
            None => forall|j: int| 0 <= j < s.len() ==> #[trigger] s[j].0 != k,
        },
    decreases s.len(),
{
    if s.len() > 0 && s.last().0 != k {
        lemma_key_pos_last(s.drop_last(), k);
        assert forall|j: int| 0 <= j < s.len() - 1 implies #[trigger] s[j] == s.drop_last()[j] by {}
    }
}

/// An entry under the key with none after it is where `key_pos` points.
proof fn lemma_key_pos_at(s: Seq<(Seq<char>, JsonView)>, k: Seq<char>, i: int)
    requires
        0 <= i < s.len(),
        s[i].0 == k,
        forall|j: int| i < j < s.len() ==> #[trigger] s[j].0 != k,
    ensures
        key_pos(s, k) == Some(i),
    decreases s.len(),
{
    if i < s.len() - 1 {
        assert(s.last() == s[s.len() - 1]);
        assert(s.last().0 != k);
        let d = s.drop_last();
        assert forall|j: int| i < j < d.len() implies #[trigger] d[j].0 != k by {
            assert(d[j] == s[j]);
        }
        lemma_key_pos_at(d, k, i);
    }
}

/// Setting key `k` makes `v` its value.
pub proof fn lemma_map_set_lookup(m: Seq<(Seq<char>, JsonView)>, k: Seq<char>, v: JsonView)
    ensures
        arg_lookup(map_set(m, k, v), k) == Some(v),
{
    lemma_key_pos_last(m, k);
    match key_pos(m, k) {
        Some(i) => {
            let m2 = m.update(i, (k, v));
            assert forall|j: int| i < j < m2.len() implies #[trigger] m2[j].0 != k by {
                assert(m2[j] == m[j]);
            }
            lemma_key_pos_at(m2, k, i);
        },
        None => {
            let m2 = m.push((k, v));
            lemma_key_pos_at(m2, k, m.len() as int);
        },
    }
}

/// The first header carrying a name, when its value is non-empty text, is
/// the header value found for that name.
proof fn lemma_header_value_first(
    hs: Seq<(Seq<char>, Option<Seq<char>>)>,
    name: Seq<char>,
    j: int,
    v: Seq<char>,
)
    requires
        0 <= j < hs.len(),
        text::lower(hs[j].0) == text::lower(name),
        hs[j].1 == Some(v),
        v.len() > 0,
        forall|i: int| 0 <= i < j ==> text::lower(#[trigger] hs[i].0) != text::lower(name),
    ensures
        header_value(hs, name) == Some(v),
    decreases j,
{
    if j > 0 {
        let t = hs.drop_first();
        assert(text::lower(hs[0].0) != text::lower(name));
        assert forall|i: int| 0 <= i < j - 1 implies text::lower(#[trigger] t[i].0) != text::lower(name) by {
            assert(t[i] == hs[i + 1]);
        }
        lemma_header_value_first(t, name, j - 1, v);
    }
}

/// A field bound from a header takes the value of the first request
/// header whose name is, in any ASCII case, the field's wire name (its
/// http name override, else its JSON name, else its Rust name), when that
/// value is non-empty text; the value is bound under the field's JSON
/// name.
pub proof fn lemma_header_field_binds(
    m: Seq<(Seq<char>, JsonView)>,
    f: FieldMeta,
    rq: RequestView,
    j: int,
    v: Seq<char>,
)
    requires
        !f.skip,
        f.http.location@ == "header"@,
        0 <= j < rq.headers.len(),
        text::lower(rq.headers[j].0) == text::lower(
            if f.http.name@.len() > 0 {
                f.http.name@
            } else if f.json_name@.len() > 0 {
                f.json_name@
            } else {
                f.name@
            },
        ),
        rq.headers[j].1 == Some(v),
        v.len() > 0,
        forall|i: int|
            0 <= i < j ==> text::lower(#[trigger] rq.headers[i].0) != text::lower(
                if f.http.name@.len() > 0 {
                    f.http.name@
                } else if f.json_name@.len() > 0 {
                    f.json_name@
                } else {
                    f.name@
                },
            ),
    ensures
        arg_lookup(bind_field(m, f, rq), f.json_name@) == Some(JsonView::Str(v)),
{
    reveal_strlit("header");
    reveal_strlit("query");
    lemma_header_value_first(rq.headers, http_name_spec(f), j, v);
    lemma_map_set_lookup(m, f.json_name@, JsonView::Str(v));
}

/// No pair under `key`: no values.
proof fn lemma_values_none(pairs: Seq<(Seq<char>, Seq<char>)>, key: Seq<char>)
    requires
        forall|i: int| 0 <= i < pairs.len() ==> (#[trigger] pairs[i]).0 != key,
    ensures
        values_of(pairs, key).len() == 0,
    decreases pairs.len(),
{
    if pairs.len() > 0 {
        assert(pairs.last() == pairs[pairs.len() - 1]);
        lemma_values_none(pairs.drop_last(), key);
    }
}

/// The first value of `key` is the value of its first pair.
proof fn lemma_values_first(pairs: Seq<(Seq<char>, Seq<char>)>, key: Seq<char>, j: int)
    requires
        0 <= j < pairs.len(),
        pairs[j].0 == key,
        forall|i: int| 0 <= i < j ==> (#[trigger] pairs[i]).0 != key,
    ensures
        values_of(pairs, key).len() > 0,
        values_of(pairs, key)[0] == pairs[j].1,
    decreases pairs.len(),
{
    let d = pairs.drop_last();
    if j == pairs.len() - 1 {
        assert forall|i: int| 0 <= i < d.len() implies (#[trigger] d[i]).0 != key by {
            assert(d[i] == pairs[i]);
        }
        lemma_values_none(d, key);
    } else {
        assert forall|i: int| 0 <= i < j implies (#[trigger] d[i]).0 != key by {
            assert(d[i] == pairs[i]);
        }
        assert(d[j] == pairs[j]);
        lemma_values_first(d, key, j);
    }
}

/// The first pair under `key` gives the form value.
proof fn lemma_form_value_first(form: Seq<(Seq<char>, Seq<char>)>, key: Seq<char>, j: int)
    requires
        0 <= j < form.len(),
        form[j].0 == key,
        forall|i: int| 0 <= i < j ==> (#[trigger] form[i]).0 != key,
    ensures
        form_value(form, key) == Some(form[j].1),
    decreases j,
{
    if j > 0 {
        let t = form.drop_first();
        assert(form[0].0 != key);
        assert forall|i: int| 0 <= i < j - 1 implies (#[trigger] t[i]).0 != key by {
            assert(t[i] == form[i + 1]);
        }
        lemma_form_value_first(t, key, j - 1);
    }
}

/// Where each field's value comes from, bound under its JSON name: a
/// query field (no location, or `query`) that is not a list takes the
/// value of the first query pair under its JSON name; a path field takes
/// the route's path parameter named by its wire name (http name override,
/// else JSON name, else Rust name); a form field takes the value of the
/// first form pair under its JSON name. A skipped field bound from a header
/// is bound under its Rust name instead.
pub proof fn lemma_field_sources(m: Seq<(Seq<char>, JsonView)>, f: FieldMeta, rq: RequestView, j: int, v: Seq<char>)
    ensures
        ({
            let q = form_spec(rq.query);
            &&& !f.skip
            &&& (f.http.location@.len() == 0 || f.http.location@ == "query"@)
            &&& f.kind != FieldKind::Slice
            &&& 0 <= j < q.len()
            &&& q[j].0 == f.json_name@
            &&& forall|i: int| 0 <= i < j ==> (#[trigger] q[i]).0 != f.json_name@
        }) ==> arg_lookup(bind_field(m, f, rq), f.json_name@) == Some(JsonView::Str(form_spec(rq.query)[j].1)),
        (!f.skip && f.http.location@ == "path"@ && path_param_spec(
            rq.route,
            rq.path,
            if f.http.name@.len() > 0 {
                f.http.name@
            } else if f.json_name@.len() > 0 {
                f.json_name@
            } else {
                f.name@
            },
        ) == Some(v)) ==> arg_lookup(bind_field(m, f, rq), f.json_name@) == Some(JsonView::Str(v)),
        ({
            &&& !f.skip
            &&& f.http.location@ == "form"@
            &&& 0 <= j < rq.form.len()
            &&& rq.form[j].0 == f.json_name@
            &&& forall|i: int| 0 <= i < j ==> (#[trigger] rq.form[i]).0 != f.json_name@
        }) ==> arg_lookup(bind_field(m, f, rq), f.json_name@) == Some(JsonView::Str(rq.form[j].1)),
        ({
            &&& f.skip
            &&& f.http.location@ == "header"@
            &&& header_value(rq.headers, http_name_spec(f)) == Some(v)
        }) ==> arg_lookup(bind_field(m, f, rq), f.name@) == Some(JsonView::Str(v)),
{
    reveal_strlit("header");
    reveal_strlit("query");
    reveal_strlit("path");
    reveal_strlit("form");
    assert("path"@[0] != "query"@[0] && "path"@[0] != "header"@[0] && "form"@[0] != "query"@[0] && "form"@[0]
        != "header"@[0] && "form"@[0] != "path"@[0]);
    let q = form_spec(rq.query);
    if !f.skip && (f.http.location@.len() == 0 || f.http.location@ == "query"@) && f.kind != FieldKind::Slice && 0
        <= j < q.len() && q[j].0 == f.json_name@ && (forall|i: int| 0 <= i < j ==> (#[trigger] q[i]).0
        != f.json_name@) {
        lemma_values_first(q, f.json_name@, j);
        lemma_map_set_lookup(m, f.json_name@, JsonView::Str(q[j].1));
    }
    if !f.skip && f.http.location@ == "path"@ && path_param_spec(rq.route, rq.path, http_name_spec(f)) == Some(v) {
        lemma_map_set_lookup(m, f.json_name@, JsonView::Str(v));
    }
    if !f.skip && f.http.location@ == "form"@ && 0 <= j < rq.form.len() && rq.form[j].0 == f.json_name@ && (forall|
        i: int,
    | 0 <= i < j ==> (#[trigger] rq.form[i]).0 != f.json_name@) {
        lemma_form_value_first(rq.form, f.json_name@, j);
        lemma_map_set_lookup(m, f.json_name@, JsonView::Str(rq.form[j].1));
    }
    if f.skip && f.http.location@ == "header"@ && header_value(rq.headers, http_name_spec(f)) == Some(v) {
        lemma_map_set_lookup(m, f.name@, JsonView::Str(v));
    }
}

/// Whether the request declares a JSON body: its `Content-Type` header
/// holds `application/json`.
pub open spec fn json_declared_of(hs: Seq<(Seq<char>, Option<Seq<char>>)>) -> bool {
    match header_value(hs, "content-type"@) {
        Some(v) => text::contains_text(v, "application/json"@),
        None => false,
    }
}

/// The arguments of one request whose body parsed to `parsed` (`None`:
/// not JSON): the HTTP-only defaults, then the channel defaults where no
/// key is set, then the members of a JSON object body, then each field's
/// value from the request. An empty body is not read as JSON. A body that
/// is JSON but not an object, or that is not JSON though declared as such,
/// is refused.
pub open spec fn body_args(
    fs: Seq<FieldMeta>,
    defaults: Seq<(Seq<char>, Seq<char>)>,
    body: Seq<u8>,
    parsed: Option<JsonView>,
    json_declared: bool,
    rq: RequestView,
) -> Option<Seq<(Seq<char>, JsonView)>> {
    let base = add_defaults(command::defaults_spec(fs, Frontend::Http), defaults);
    if body.len() == 0 {
        Some(bind_fields(base, fs, rq))
    } else {
        match parsed {
            Some(JsonView::Object(es)) => Some(bind_fields(put_all(base, es), fs, rq)),
            Some(_) => None,
            None => if json_declared {
                None
            } else {
                Some(bind_fields(base, fs, rq))
            },
        }
    }
}

/// The request as the binding reads it: the form pairs come from the body
/// decoded as UTF-8 (lossily).
pub open spec fn request_view(
    route: Seq<char>,
    path: Seq<char>,
    query: Seq<char>,
    headers: Seq<(String, Option<String>)>,
    body: Seq<u8>,
) -> RequestView {
    RequestView {
        route,
        path,
        query,
        headers: header_views(headers),
        form: form_spec(lossy_utf8(body)),
    }
}

/// The arguments of one request, its body read as JSON by `serde_json`.
pub open spec fn request_args(
    fs: Seq<FieldMeta>,
    defaults: Seq<(Seq<char>, Seq<char>)>,
    body: Seq<u8>,
    rq: RequestView,
) -> Option<Seq<(Seq<char>, JsonView)>> {
    body_args(fs, defaults, body, crate::json::json_parse(body), json_declared_of(rq.headers), rq)
}

/// The plain value of a parse result.
pub open spec fn parsed_view(p: Option<Json>) -> Option<JsonView> {
    match p {
        Some(j) => Some(j@),
        None => None,
    }
}

/// Whether the headers declare a JSON body.
fn json_declared(headers: &Vec<(String, Option<String>)>) -> (r: bool)
    ensures
        r == json_declared_of(header_views(headers@)),
{
    match header_get(headers, "content-type") {
        Some(v) => text::str_contains(v.as_str(), "application/json"),
        None => false,
    }
}

/// Whether key `k` is set.
fn has_key(m: &Vec<(String, Json)>, k: &str) -> (r: bool)
    ensures
        r == (key_pos(arg_views(m@), k@) is Some),
{
    let ghost mv = arg_views(m@);
    let mut i: usize = m.len();
    assert(mv.take(m.len() as int) == mv);
    while i > 0
        invariant
            i <= m.len(),
            mv == arg_views(m@),
            key_pos(mv, k@) == key_pos(mv.take(i as int), k@),
        decreases i,
    {
        proof {
            assert(mv.take(i as int).last() == mv[i - 1]);
            assert(mv.take(i as int).drop_last() == mv.take(i - 1));
        }
        if text::str_eq(m[i - 1].0.as_str(), k) {
            assert(mv[i - 1].0 == k@);
            return true;
        }
        i -= 1;
    }
    false
}

fn form_get<'a>(form: &'a Vec<(String, String)>, key: &str) -> (r: Option<&'a String>)
    ensures
        match r {
            Some(v) => form_value(pair_views(form@), key@) == Some(v@),
            None => form_value(pair_views(form@), key@) is None,
        },
{
    let ghost fv = pair_views(form@);
    let mut i: usize = 0;
    assert(fv.skip(0) == fv);
    while i < form.len()
        invariant
            i <= form.len(),
            fv == pair_views(form@),
            form_value(fv, key@) == form_value(fv.skip(i as int), key@),
        decreases form.len() - i,
    {
        assert(fv.skip(i as int)[0] == fv[i as int]);
        assert(fv.skip(i as int).drop_first() == fv.skip(i + 1));
        if text::str_eq(form[i].0.as_str(), key) {
            return Some(&form[i].1);
        }
        i += 1;
    }
    None
}

fn string_items(vs: &Vec<String>) -> (r: Vec<Json>)
    ensures
        crate::json::items_view(r@) == text::views(vs@).map_values(|v: Seq<char>| JsonView::Str(v)),
{
    let mut out: Vec<Json> = Vec::new();
    let mut i: usize = 0;
    while i < vs.len()
        invariant
            i <= vs.len(),
            crate::json::items_view(out@) == text::views(vs@.take(i as int)).map_values(
                |v: Seq<char>| JsonView::Str(v),
            ),
        decreases vs.len() - i,
    {
        let ghost before = out@;
        out.push(Json::Str(vs[i].clone()));
        proof {
            assert(out@.drop_last() == before);
            assert(text::views(vs@.take(i + 1)) =~= text::views(vs@.take(i as int)).push(vs@[i as int]@));
            assert(out@.last() == Json::Str(vs@[i as int]));
            assert(crate::json::json_view(out@.last()) == JsonView::Str(vs@[i as int]@));
            assert(crate::json::items_view(out@) == crate::json::items_view(out@.drop_last()) + seq![
                crate::json::json_view(out@.last()),
            ]);
            assert(crate::json::items_view(out@) =~= crate::json::items_view(before).push(JsonView::Str(vs@[i as int]@)));
            assert(text::views(vs@.take(i + 1)).map_values(|v: Seq<char>| JsonView::Str(v))
                =~= text::views(vs@.take(i as int)).map_values(|v: Seq<char>| JsonView::Str(v)).push(
                JsonView::Str(vs@[i as int]@),
            ));
        }
        i += 1;
    }
    assert(vs@.take(vs.len() as int) == vs@);
    out
}

/// Binds one field's value from the request.
fn bind_one(
    m: &mut Vec<(String, Json)>,
    f: &FieldMeta,
    route: &str,
    path: &str,
    query: &str,
    headers: &Vec<(String, Option<String>)>,
    form: &Vec<(String, String)>,
)
    ensures
        arg_views(final(m)@) == bind_field(
            arg_views(old(m)@),
            *f,
            RequestView {
                route: route@,
                path: path@,
                query: query@,
                headers: header_views(headers@),
                form: pair_views(form@),
            },
        ),
{
    proof {
        reveal_strlit("header");
        reveal_strlit("query");
        reveal_strlit("path");
        reveal_strlit("form");
    }
    let loc = f.http.location.as_str();
    if f.skip {
        if text::str_eq(loc, "header") {
            match header_get(headers, http_name(f)) {
                Some(v) => map_put(m, f.name.clone(), Json::Str(v.clone())),
                None => {},
            }
        }
        return;
    }
    if loc.is_empty() || text::str_eq(loc, "query") {
        match query_values(query, f.json_name.as_str()) {
            Some(vs) => {
                if f.kind == FieldKind::Slice {
                    map_put(m, f.json_name.clone(), Json::Array(string_items(&vs)));
                } else {
                    map_put(m, f.json_name.clone(), Json::Str(vs[0].clone()));
                }
            },
            None => {},
        }
    } else if text::str_eq(loc, "header") {
        match header_get(headers, http_name(f)) {
            Some(v) => map_put(m, f.json_name.clone(), Json::Str(v.clone())),
            None => {},
        }
    } else if text::str_eq(loc, "path") {
        match path_param(route, path, http_name(f)) {
            Some(v) => map_put(m, f.json_name.clone(), Json::Str(v)),
            None => {},
        }
    } else if text::str_eq(loc, "form") {
        match form_get(form, f.json_name.as_str()) {
            Some(v) => map_put(m, f.json_name.clone(), Json::Str(v.clone())),
            None => {},
        }
    }
}

/// The arguments of one request to a command with these top-level
/// fields, its body already parsed (`parsed`, read only where the body is
/// not empty): the HTTP-only defaults, the channel defaults where no key
/// is set, the members of a JSON object body, then each field's value from
/// the query, the headers, the route's path parameters or the form body.
/// A body that is JSON but not an object, or that fails to parse though
/// declared `application/json`, is refused as invalid input.
pub fn bind_parsed(
    fields: &Vec<FieldMeta>,
    defaults: &Vec<(String, String)>,
    body: &[u8],
    parsed: Option<Json>,
    route: &str,
    path: &str,
    query: &str,
    headers: &Vec<(String, Option<String>)>,
) -> (r: Result<Vec<(String, Json)>, errors::Error>)
    ensures
        match body_args(
            fields@,
            pair_views(defaults@),
            body@,
            parsed_view(parsed),
            json_declared_of(header_views(headers@)),
            request_view(route@, path@, query@, headers@, body@),
        ) {
            Some(args) => r matches Ok(m) && arg_views(m@) == args,
            None => r matches Err(e) && e.text_spec() == "invalid JSON body"@ && e.kind_spec()
                == errors::Kind::InvalidInput && e.class_spec() == errors::Kind::InvalidInput,
        },
{
    let ghost dv = pair_views(defaults@);
    let mut m = command::transport_defaults(fields, Frontend::Http);
    let ghost m0 = arg_views(m@);
    let mut i: usize = 0;
    while i < defaults.len()
        invariant
            i <= defaults.len(),
            dv == pair_views(defaults@),
            arg_views(m@) == add_defaults(m0, dv.take(i as int)),
        decreases defaults.len() - i,
    {
        proof {
            assert(dv.take(i + 1).drop_last() == dv.take(i as int));
            assert(dv.take(i + 1).last() == (defaults@[i as int].0@, defaults@[i as int].1@));
        }
        if !has_key(&m, defaults[i].0.as_str()) {
            let ghost before = arg_views(m@);
            let k = defaults[i].0.clone();
            let v = defaults[i].1.clone();
            m.push((k, Json::Str(v)));
            assert(arg_views(m@) =~= before.push((defaults@[i as int].0@, JsonView::Str(defaults@[i as int].1@))));
        }
        i += 1;
    }
    assert(dv.take(defaults.len() as int) == dv);
    let ghost base = arg_views(m@);
    if body.len() > 0 {
        let declared = json_declared(headers);
        match parsed {
            Some(Json::Object(es)) => {
                let ghost ev = crate::json::members_view(es@);
                proof {
                    lemma_members_view_index(es@);
                }
                let mut k: usize = 0;
                while k < es.len()
                    invariant
                        k <= es.len(),
                        ev == crate::json::members_view(es@),
                        ev.len() == es@.len(),
                        forall|q: int| 0 <= q < es@.len() ==> #[trigger] ev[q] == (es@[q].0@, es@[q].1@),
                        arg_views(m@) == put_all(base, ev.take(k as int)),
                    decreases es.len() - k,
                {
                    proof {
                        assert(ev.take(k + 1).drop_last() == ev.take(k as int));
                        assert(ev.take(k + 1).last() == ev[k as int]);
                    }
                    let key = es[k].0.clone();
                    let val = crate::json::clone_json(&es[k].1);
                    map_put(&mut m, key, val);
                    k += 1;
                }
                assert(ev.take(es.len() as int) == ev);
            },
            Some(_) => {
                proof {
                    reveal_strlit("invalid JSON body");
                }
                return Err(errors::new(errors::Kind::InvalidInput, text::owned("invalid JSON body")));
            },
            None => {
                if declared {
                    proof {
                        reveal_strlit("invalid JSON body");
                    }
                    return Err(errors::new(errors::Kind::InvalidInput, text::owned("invalid JSON body")));
                }
            },
        }
    }
    let text_body = from_utf8_lossy(body);
    let form = parse_form_query(text_body.as_str());
    let ghost mid = arg_views(m@);
    let ghost rq = RequestView {
        route: route@,
        path: path@,
        query: query@,
        headers: header_views(headers@),
        form: form_spec(lossy_utf8(body@)),
    };
    let mut q: usize = 0;
    while q < fields.len()
        invariant
            q <= fields.len(),
            pair_views(form@) == rq.form,
            rq == (RequestView {
                route: route@,
                path: path@,
                query: query@,
                headers: header_views(headers@),
                form: form_spec(lossy_utf8(body@)),
            }),
            arg_views(m@) == bind_fields(mid, fields@.take(q as int), rq),
        decreases fields.len() - q,
    {
        proof {
            assert(fields@.take(q + 1).drop_last() == fields@.take(q as int));
            assert(fields@.take(q + 1).last() == fields@[q as int]);
        }
        bind_one(&mut m, &fields[q], route, path, query, headers, &form);
        q += 1;
    }
    assert(fields@.take(fields.len() as int) == fields@);
    Ok(m)
}

/// The arguments of one request: its body, where not empty, is read as
/// JSON by `serde_json`, then bound as [`bind_parsed`] says.
pub fn bind_request(
    fields: &Vec<FieldMeta>,
    defaults: &Vec<(String, String)>,
    body: &[u8],
    route: &str,
    path: &str,
    query: &str,
    headers: &Vec<(String, Option<String>)>,
) -> (r: Result<Vec<(String, Json)>, errors::Error>)
    ensures
        match request_args(
            fields@,
            pair_views(defaults@),
            body@,
            request_view(route@, path@, query@, headers@, body@),
        ) {
            Some(args) => r matches Ok(m) && arg_views(m@) == args,
            None => r matches Err(e) && e.text_spec() == "invalid JSON body"@ && e.kind_spec()
                == errors::Kind::InvalidInput && e.class_spec() == errors::Kind::InvalidInput,
        },
{
    let parsed = if body.len() == 0 {
        None
    } else {
        crate::json::parse_json(body)
    };
    bind_parsed(fields, defaults, body, parsed, route, path, query, headers)
}

/// The members of an object's view, index by index.
proof fn lemma_members_view_index(es: Seq<(String, Json)>)
    ensures
        crate::json::members_view(es).len() == es.len(),
        forall|q: int| 0 <= q < es.len() ==> #[trigger] crate::json::members_view(es)[q] == (es[q].0@, es[q].1@),
    decreases es.len(),
{
    if es.len() > 0 {
        lemma_members_view_index(es.drop_last());
        assert forall|q: int| 0 <= q < es.len() implies #[trigger] crate::json::members_view(es)[q] == (
            es[q].0@,
            es[q].1@,
        ) by {
            if q < es.len() - 1 {
                assert(es.drop_last()[q] == es[q]);
            }
        }
    }
}

/// Channel defaults only fill in: every key already set keeps its place
/// and its value, and a default is added only under a key not set.
pub proof fn lemma_channel_defaults_only_fill(m: Seq<(Seq<char>, JsonView)>, ds: Seq<(Seq<char>, Seq<char>)>)
    ensures
        add_defaults(m, ds).len() >= m.len(),
        forall|i: int| 0 <= i < m.len() ==> #[trigger] add_defaults(m, ds)[i] == m[i],
    decreases ds.len(),
{
    if ds.len() > 0 {
        lemma_channel_defaults_only_fill(m, ds.drop_last());
    }
}

// ------------------------------------------------------------ routes
/// The methods the router serves.
pub open spec fn method_supported(m: Seq<char>) -> bool {
    m == "GET"@ || m == "POST"@ || m == "PUT"@ || m == "PATCH"@ || m == "DELETE"@ || m == "HEAD"@
        || m == "OPTIONS"@
}

/// Two commands declare the same method and path.
pub open spec fn same_route(a: HTTPHints, b: HTTPHints) -> bool {
    a.method@ == b.method@ && a.path@ == b.path@
}

/// A command declares a route: not skipped, with a method and a path.
pub open spec fn routed(h: HTTPHints) -> bool {
    !h.skip && h.method@.len() > 0 && h.path@.len() > 0
}

/// The routes of the commands (by index, in registry order), or the first
/// refusal: a method and path taken twice, or a method the router does
/// not serve.
pub open spec fn routes_spec(hs: Seq<HTTPHints>) -> Result<Seq<int>, Seq<char>>
    decreases hs.len(),
{
    if hs.len() == 0 {
        Ok(Seq::empty())
    } else {
        match routes_spec(hs.drop_last()) {
            Err(m) => Err(m),
            Ok(rs) => {
                let h = hs.last();
                if !routed(h) {
                    Ok(rs)
                } else if exists|k: int| 0 <= k < rs.len() && same_route(#[trigger] hs[rs[k]], h) {
                    Err("httpapi: route "@ + text::quoted(h.method@) + " "@ + text::quoted(h.path@)
                        + " conflicts with an existing route"@)
                } else if !method_supported(h.method@) {
                    Err("httpapi: unsupported HTTP method "@ + text::quoted(h.method@))
                } else {
                    Ok(rs.push(hs.len() - 1))
                }
            },
        }
    }
}

fn supported_method(m: &str) -> (r: bool)
    ensures
        r == method_supported(m@),
{
    text::str_eq(m, "GET") || text::str_eq(m, "POST") || text::str_eq(m, "PUT") || text::str_eq(m, "PATCH")
        || text::str_eq(m, "DELETE") || text::str_eq(m, "HEAD") || text::str_eq(m, "OPTIONS")
}

/// The routes of the commands whose HTTP configurations are `hints` (in
/// registry order): the indices of those that declare a route.
pub fn plan_routes(hints: &[HTTPHints]) -> (r: Result<Vec<usize>, errors::Error>)
    ensures
        match routes_spec(hints@) {
            Ok(rs) => r matches Ok(v) && v@.map_values(|x: usize| x as int) == rs,
            Err(m) => r matches Err(e) && e.text_spec() == m && e.kind_spec() == errors::Kind::Internal && e.class_spec() == errors::Kind::Internal,
        },
{
    let mut out: Vec<usize> = Vec::new();
    let mut i: usize = 0;
    proof {
        assert(hints@.take(0) == Seq::<HTTPHints>::empty());
        assert(out@.map_values(|x: usize| x as int) == Seq::<int>::empty());
    }
    while i < hints.len()
        invariant
            i <= hints.len(),
            routes_spec(hints@.take(i as int)) == Ok::<Seq<int>, Seq<char>>(out@.map_values(|x: usize| x as int)),
            forall|k: int| 0 <= k < out@.len() ==> out@[k] < i,
        decreases hints.len() - i,
    {
        let ghost hs = hints@.take(i + 1);
        let ghost rs = out@.map_values(|x: usize| x as int);
        proof {
            assert(hs.drop_last() == hints@.take(i as int));
            assert(hs.last() == hints@[i as int]);
        }
        let h = &hints[i];
        if h.skip || h.method.as_str().is_empty() || h.path.as_str().is_empty() {
            i += 1;
            continue;
        }
        let mut k: usize = 0;
        let mut clash = false;
        while k < out.len()
            invariant
                k <= out.len(),
                forall|q: int| 0 <= q < out@.len() ==> out@[q] < i,
                i < hints.len(),
                *h == hints@[i as int],
                !clash ==> forall|q: int| 0 <= q < k ==> !same_route(#[trigger] hints@[out@[q] as int], hints@[i as int]),
                clash ==> exists|q: int| 0 <= q < out@.len() && same_route(#[trigger] hints@[out@[q] as int], hints@[i as int]),
            decreases out.len() - k,
        {
            let j = out[k];
            let hit = text::str_eq(hints[j].method.as_str(), h.method.as_str()) && text::str_eq(
                hints[j].path.as_str(),
                h.path.as_str(),
            );
            assert(hit == same_route(hints@[out@[k as int] as int], hints@[i as int]));
            if !clash && hit {
                clash = true;
            }
            k += 1;
        }
        proof {
            assert forall|q: int| 0 <= q < rs.len() implies #[trigger] hs[rs[q]] == hints@[out@[q] as int] by {
                assert(rs[q] == out@[q] as int);
            }
        }
        if clash {
            let mut m = text::owned("httpapi: route ");
            let qm = text::quote(h.method.as_str());
            text::append(&mut m, qm.as_str());
            text::append(&mut m, " ");
            let qp = text::quote(h.path.as_str());
            text::append(&mut m, qp.as_str());
            text::append(&mut m, " conflicts with an existing route");
            proof {
                reveal_strlit("httpapi: route ");
                let q = choose|q: int| 0 <= q < out@.len() && same_route(#[trigger] hints@[out@[q] as int], hints@[i as int]);
                assert(hs[rs[q]] == hints@[out@[q] as int]);
                assert(same_route(hs[rs[q]], hs.last()));
                lemma_routes_err(hints@, i as int + 1);
                assert(hints@.take(hints@.len() as int) == hints@);
            }
            return Err(errors::new(errors::Kind::Internal, m));
        }
        if !supported_method(h.method.as_str()) {
            let mut m = text::owned("httpapi: unsupported HTTP method ");
            let qm = text::quote(h.method.as_str());
            text::append(&mut m, qm.as_str());
            proof {
                reveal_strlit("httpapi: unsupported HTTP method ");
                lemma_routes_err(hints@, i as int + 1);
                assert(hints@.take(hints@.len() as int) == hints@);
            }
            return Err(errors::new(errors::Kind::Internal, m));
        }
        let ghost before = out@;
        out.push(i);
        proof {
            assert(out@.map_values(|x: usize| x as int) =~= rs.push(i as int));
        }
        i += 1;
    }
    assert(hints@.take(hints.len() as int) == hints@);
    Ok(out)
}

/// A refusal stays the result for the later commands.
proof fn lemma_routes_err(hs: Seq<HTTPHints>, k: int)
    requires
        0 <= k <= hs.len(),
        routes_spec(hs.take(k)) is Err,
    ensures
        routes_spec(hs.take(hs.len() as int)) == routes_spec(hs.take(k)),
    decreases hs.len() - k,
{
    if k < hs.len() {
        assert(hs.take(k + 1).drop_last() == hs.take(k));
        lemma_routes_err(hs, k + 1);
    }
}

// ------------------------------------------------------------ middleware
/// A request is let through the Bearer check: its `Authorization` value
/// is `Bearer ` (in this case) followed by exactly one of the tokens.
pub open spec fn bearer_ok_spec(auth: Seq<char>, tokens: Seq<Seq<char>>) -> bool {
    text::is_prefix("Bearer "@, auth) && tokens.contains(auth.skip(7))
}

/// The Bearer check on an `Authorization` value (empty when the header
/// is absent or not text).
pub fn bearer_ok(auth: &str, tokens: &Vec<String>) -> (r: bool)
    ensures
        r == bearer_ok_spec(auth@, text::views(tokens@)),
{
    proof {
        reveal_strlit("Bearer ");
    }
    match text::strip_prefix(auth, "Bearer ") {
        Some(rest) => crate::builtins::contains_str(tokens, rest.as_str()),
        None => false,
    }
}

/// The Bearer check accepts `Bearer <t>` for every configured token `t`,
/// wherever it stands in the list, and accepts nothing else: an accepted
/// value is `Bearer ` followed by one of the tokens.
pub proof fn lemma_bearer_accepts_exactly_the_tokens(tokens: Seq<Seq<char>>, t: Seq<char>, auth: Seq<char>)
    ensures
        tokens.contains(t) ==> bearer_ok_spec("Bearer "@ + t, tokens),
        bearer_ok_spec(auth, tokens) ==> exists|u: Seq<char>| tokens.contains(u) && auth == "Bearer "@ + u,
{
    reveal_strlit("Bearer ");
    let h = "Bearer "@ + t;
    assert(h.subrange(0, 7) =~= "Bearer "@);
    assert(h.skip(7) =~= t);
    if bearer_ok_spec(auth, tokens) {
        let u = auth.skip(7);
        assert(auth =~= "Bearer "@ + u);
    }
}

/// The `Access-Control-Allow-Origin` answer to a request's origin: `*`
/// when any origin is allowed, else the origin itself when listed (and
/// then `Vary: Origin` is owed), else none.
pub open spec fn cors_spec(origin: Option<Seq<char>>, origins: Seq<Seq<char>>) -> Option<(Seq<char>, bool)> {
    match origin {
        None => None,
        Some(o) => if origins.contains("*"@) {
            Some(("*"@, false))
        } else if origins.contains(o) {
            Some((o, true))
        } else {
            None
        },
    }
}

/// The CORS answer to a request's `Origin` value (none when absent or
/// not text).
pub fn cors_origin(origin: Option<&str>, origins: &Vec<String>) -> (r: Option<(String, bool)>)
    ensures
        match r {
            Some((o, v)) => cors_spec(
                match origin {
                    Some(x) => Some(x@),
                    None => None,
                },
                text::views(origins@),
            ) == Some((o@, v)),
            None => cors_spec(
                match origin {
                    Some(x) => Some(x@),
                    None => None,
                },
                text::views(origins@),
            ) is None,
        },
{
    match origin {
        None => None,
        Some(o) => {
            if crate::builtins::contains_str(origins, "*") {
                Some((text::owned("*"), false))
            } else if crate::builtins::contains_str(origins, o) {
                Some((text::owned(o), true))
            } else {
                None
            }
        },
    }
}

/// A CORS preflight is answered before authentication: an `OPTIONS`
/// request whose origin is allowed.
pub fn is_preflight(method: &str, allowed: &Option<(String, bool)>) -> (r: bool)
    ensures
        r == (method@ == "OPTIONS"@ && allowed is Some),
{
    text::str_eq(method, "OPTIONS") && allowed.is_some()
}

/// The `Vary` value after adding `Origin` to an existing one.
pub fn vary_with_origin(existing: &str) -> (r: String)
    ensures
        r@ == (if existing@.len() == 0 {
            "Origin"@
        } else {
            existing@ + ", Origin"@
        }),
{
    if existing.is_empty() {
        text::owned("Origin")
    } else {
        let mut s = text::owned(existing);
        text::append(&mut s, ", Origin");
        s
    }
}

} // verus!
