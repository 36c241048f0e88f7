//! Flag parsing of the CLI frontend: long and short names, the `=` forms,
//! booleans without a value, and everything after `--` as positional
//! arguments.  An unknown flag is a usage error.
use vstd::prelude::*;
use crate::errors;
use crate::scalar;
use crate::text;

verus! {

/// How a flag takes its value.
#[derive(Debug, Clone, Copy, PartialEq, Eq, Structural)]
pub enum FlagKind {
    Str,
    Bool,
    Slice,
}

/// A long/short flag and how it takes its value.
#[derive(Debug)]
pub struct FlagDef {
    pub long: String,
    pub short: Option<char>,
    pub kind: FlagKind,
}

/// A flag definition as plain values.
pub struct FlagDefView {
    pub long: Seq<char>,
    pub short: Option<char>,
    pub kind: FlagKind,
}

impl View for FlagDef {
    type V = FlagDefView;

    open spec fn view(&self) -> FlagDefView {
        FlagDefView { long: self.long@, short: self.short, kind: self.kind }
    }
}

/// The value a flag received in one parse.
#[derive(Debug)]
pub struct FlagVal {
    pub seen: bool,
    pub str: String,
    pub list: Vec<String>,
    pub boolean: bool,
}

/// A flag value as plain values.
pub struct FlagValView {
    pub seen: bool,
    pub str: Seq<char>,
    pub list: Seq<Seq<char>>,
    pub boolean: bool,
}

impl View for FlagVal {
    type V = FlagValView;

    open spec fn view(&self) -> FlagValView {
        FlagValView {
            seen: self.seen,
            str: self.str@,
            list: text::views(self.list@),
            boolean: self.boolean,
        }
    }
}

/// The value of a flag that was not given.
pub open spec fn unset_val() -> FlagValView {
    FlagValView { seen: false, str: Seq::empty(), list: Seq::empty(), boolean: false }
}

impl Default for FlagVal {
    fn default() -> (v: FlagVal)
        ensures
            v@ == unset_val(),
    {
        let v = FlagVal { seen: false, str: String::new(), list: Vec::new(), boolean: false };
        assert(v@.list == Seq::<Seq<char>>::empty());
        v
    }
}

impl Clone for FlagVal {
    fn clone(&self) -> (v: FlagVal)
        ensures
            v@ == self@,
    {
        FlagVal {
            seen: self.seen,
            str: self.str.clone(),
            list: text::clone_strings(&self.list),
            boolean: self.boolean,
        }
    }
}

/// The views of the flag definitions.
pub open spec fn def_views(d: Seq<FlagDef>) -> Seq<FlagDefView> {
    d.map_values(|x: FlagDef| x@)
}

/// The views of the flag values.
pub open spec fn val_views(v: Seq<FlagVal>) -> Seq<FlagValView> {
    v.map_values(|x: FlagVal| x@)
}

/// The definition a long name selects: the last one with that name.
pub open spec fn long_index(defs: Seq<FlagDefView>, name: Seq<char>) -> Option<int>
    decreases defs.len(),
{
    if defs.len() == 0 {
        None
    } else if defs.last().long == name {
        Some(defs.len() - 1)
    } else {
        long_index(defs.drop_last(), name)
    }
}

/// The definition a shorthand selects: the last one with that shorthand.
pub open spec fn short_index(defs: Seq<FlagDefView>, c: char) -> Option<int>
    decreases defs.len(),
{
    if defs.len() == 0 {
        None
    } else if defs.last().short == Some(c) {
        Some(defs.len() - 1)
    } else {
        short_index(defs.drop_last(), c)
    }
}

/// The position of the first `c` in `s`.
pub open spec fn first_of(s: Seq<char>, c: char) -> Option<nat>
    decreases s.len(),
{
    if s.len() == 0 {
        None
    } else if s[0] == c {
        Some(0)
    } else {
        match first_of(s.drop_first(), c) {
            Some(k) => Some(k + 1),
            None => None,
        }
    }
}

/// `name[=value]`: the name, whether a value is attached, the value.
pub open spec fn long_parts(rest: Seq<char>) -> (Seq<char>, bool, Seq<char>) {
    match first_of(rest, '=') {
        Some(k) => (rest.take(k as int), true, rest.skip(k + 1 as int)),
        None => (rest, false, Seq::empty()),
    }
}

/// A flag given a value (`Slice` flags collect them, others keep the last).
pub open spec fn with_value(v: FlagValView, kind: FlagKind, val: Seq<char>) -> FlagValView {
    if kind == FlagKind::Slice {
        FlagValView { seen: true, list: v.list.push(val), ..v }
    } else {
        FlagValView { seen: true, str: val, ..v }
    }
}

/// A boolean flag set to `b`.
pub open spec fn with_bool(v: FlagValView, b: bool) -> FlagValView {
    FlagValView { seen: true, boolean: b, ..v }
}

/// What one argument does.
pub enum FlagStep {
    /// The argument (and, for `2`, its value after it) is consumed and the
    /// values become these.
    Advance(nat, Seq<FlagValView>),
    /// A positional argument.
    Positional,
    /// `--`: every later argument is positional.
    Rest,
    /// A usage error with this message.
    Fail(Seq<char>),
}

/// The effect of argument `i`.
pub open spec fn flag_step(
    defs: Seq<FlagDefView>,
    args: Seq<Seq<char>>,
    i: nat,
    vals: Seq<FlagValView>,
) -> FlagStep {
    let a = args[i as int];
    if a == "--"@ {
        FlagStep::Rest
    } else if text::is_prefix("--"@, a) {
        let (name, has_val, val) = long_parts(a.skip(2));
        match long_index(defs, name) {
            None => FlagStep::Fail("unknown flag: --"@ + name),
            Some(di) => if defs[di].kind == FlagKind::Bool {
                if !has_val {
                    FlagStep::Advance(1, vals.update(di, with_bool(vals[di], true)))
                } else {
                    match scalar::bool_of(val) {
                        Some(b) => FlagStep::Advance(1, vals.update(di, with_bool(vals[di], b))),
                        None => FlagStep::Fail(
                            "invalid boolean value "@ + text::quoted(val) + " for --"@ + name,
                        ),
                    }
                }
            } else if !has_val {
                if i + 1 >= args.len() {
                    FlagStep::Fail("flag needs an argument: --"@ + name)
                } else {
                    FlagStep::Advance(
                        2,
                        vals.update(di, with_value(vals[di], defs[di].kind, args[i + 1 as int])),
                    )
                }
            } else {
                FlagStep::Advance(1, vals.update(di, with_value(vals[di], defs[di].kind, val)))
            },
        }
    } else if text::is_prefix("-"@, a) && a.len() > 1 {
        let sh = a[1];
        match short_index(defs, sh) {
            None => FlagStep::Fail("unknown shorthand flag: -"@ + seq![sh]),
            Some(di) => {
                let rest = if text::is_prefix("="@, a.skip(2)) {
                    a.skip(3)
                } else {
                    a.skip(2)
                };
                if defs[di].kind == FlagKind::Bool {
                    if rest.len() == 0 {
                        FlagStep::Advance(1, vals.update(di, with_bool(vals[di], true)))
                    } else {
                        match scalar::bool_of(rest) {
                            Some(b) => FlagStep::Advance(1, vals.update(di, with_bool(vals[di], b))),
                            None => FlagStep::Fail(
                                "invalid boolean value "@ + text::quoted(rest) + " for -"@ + seq![sh],
                            ),
                        }
                    }
                } else if rest.len() == 0 {
                    if i + 1 >= args.len() {
                        FlagStep::Fail("flag needs an argument: -"@ + seq![sh])
                    } else {
                        FlagStep::Advance(
                            2,
                            vals.update(di, with_value(vals[di], defs[di].kind, args[i + 1 as int])),
                        )
                    }
                } else {
                    FlagStep::Advance(1, vals.update(di, with_value(vals[di], defs[di].kind, rest)))
                }
            },
        }
    } else {
        FlagStep::Positional
    }
}

/// Parsing from argument `i` with the values and positional arguments so
/// far.
pub open spec fn parse_from(
    defs: Seq<FlagDefView>,
    args: Seq<Seq<char>>,
    i: nat,
    vals: Seq<FlagValView>,
    pos: Seq<Seq<char>>,
) -> Result<(Seq<FlagValView>, Seq<Seq<char>>), Seq<char>>
    decreases args.len() - i,
{
    if i >= args.len() {
        Ok((vals, pos))
    } else {
        match flag_step(defs, args, i, vals) {
            FlagStep::Advance(k, v2) => if k == 2 {
                parse_from(defs, args, i + 2, v2, pos)
            } else {
                parse_from(defs, args, i + 1, v2, pos)
            },
            FlagStep::Positional => parse_from(defs, args, i + 1, vals, pos.push(args[i as int])),
            FlagStep::Rest => Ok((vals, pos + args.skip(i + 1 as int))),
            FlagStep::Fail(m) => Err(m),
        }
    }
}

/// The values before any argument: every flag unset.
pub open spec fn unset_vals(n: nat) -> Seq<FlagValView> {
    Seq::new(n, |k: int| unset_val())
}

/// The result of parsing `args` against `defs`.
pub open spec fn parse_spec(defs: Seq<FlagDefView>, args: Seq<Seq<char>>) -> Result<
    (Seq<FlagValView>, Seq<Seq<char>>),
    Seq<char>,
> {
    parse_from(defs, args, 0, unset_vals(defs.len()), Seq::empty())
}

/// A text with no `=` has no first `=`.
proof fn lemma_no_eq(n: Seq<char>)
    requires
        !n.contains('='),
    ensures
        first_of(n, '=') is None,
    decreases n.len(),
{
    if n.len() > 0 {
        assert(n[0] != '=');
        assert forall|k: int| 0 <= k < n.drop_first().len() implies n.drop_first()[k] != '=' by {
            assert(n.drop_first()[k] == n[k + 1]);
        }
        lemma_no_eq(n.drop_first());
    }
}

/// The first `=` of `n=v` is the one after `n` when `n` has none.
proof fn lemma_first_eq(n: Seq<char>, v: Seq<char>)
    requires
        !n.contains('='),
    ensures
        first_of(n + "="@ + v, '=') == Some(n.len()),
    decreases n.len(),
{
    reveal_strlit("=");
    let s = n + "="@ + v;
    if n.len() == 0 {
        assert(s[0] == '=');
    } else {
        assert(s[0] == n[0]);
        assert(n[0] != '=');
        assert forall|k: int| 0 <= k < n.drop_first().len() implies n.drop_first()[k] != '=' by {
            assert(n.drop_first()[k] == n[k + 1]);
        }
        assert(s.drop_first() == n.drop_first() + "="@ + v);
        lemma_first_eq(n.drop_first(), v);
    }
}

/// Parsing from argument `i` depends only on the arguments from `i` on.
pub proof fn lemma_parse_from_suffix(
    defs: Seq<FlagDefView>,
    args: Seq<Seq<char>>,
    i: nat,
    vals: Seq<FlagValView>,
    pos: Seq<Seq<char>>,
)
    requires
        i <= args.len(),
    ensures
        parse_from(defs, args, i, vals, pos) == parse_from(defs, args.skip(i as int), 0, vals, pos),
    decreases args.len() - i, 0nat,
{
    let t = args.skip(i as int);
    if i < args.len() {
        assert(t[0] == args[i as int]);
        if i + 1 < args.len() {
            assert(t[1] == args[(i + 1) as int]);
        }
        assert(flag_step(defs, args, i, vals) == flag_step(defs, t, 0, vals));
        match flag_step(defs, args, i, vals) {
            FlagStep::Advance(k, v2) => {
                if k == 2 {
                    if i + 2 <= args.len() {
                        lemma_parse_from_suffix(defs, args, i + 2, v2, pos);
                        lemma_parse_from_suffix(defs, t, 2, v2, pos);
                        assert(t.skip(2) == args.skip((i + 2) as int));
                    }
                } else {
                    lemma_parse_from_suffix(defs, args, i + 1, v2, pos);
                    lemma_parse_from_suffix(defs, t, 1, v2, pos);
                    assert(t.skip(1) == args.skip((i + 1) as int));
                }
            },
            FlagStep::Positional => {
                lemma_parse_from_suffix(defs, args, i + 1, vals, pos.push(args[i as int]));
                lemma_parse_from_suffix(defs, t, 1, vals, pos.push(args[i as int]));
                assert(t.skip(1) == args.skip((i + 1) as int));
            },
            FlagStep::Rest => {
                assert(t.skip(1) == args.skip((i + 1) as int));
            },
            FlagStep::Fail(_) => {},
        }
    }
}

/// A value flag written `--name=value` parses exactly as `--name value`:
/// from any point of a parse, the two spellings leave the same values and
/// positional arguments (or the same error) for whatever follows.
pub proof fn lemma_eq_form_is_two_words(
    defs: Seq<FlagDefView>,
    name: Seq<char>,
    value: Seq<char>,
    post: Seq<Seq<char>>,
    vals: Seq<FlagValView>,
    pos: Seq<Seq<char>>,
)
    requires
        name.len() > 0,
        !name.contains('='),
        long_index(defs, name) matches Some(di) && 0 <= di < vals.len() && defs[di].kind != FlagKind::Bool,
    ensures
        parse_from(defs, seq!["--"@ + name + "="@ + value] + post, 0, vals, pos) == parse_from(
            defs,
            seq!["--"@ + name, value] + post,
            0,
            vals,
            pos,
        ),
{
    reveal_strlit("--");
    reveal_strlit("=");
    let a1 = seq!["--"@ + name + "="@ + value] + post;
    let a2 = seq!["--"@ + name, value] + post;
    let x1 = a1[0];
    let x2 = a2[0];
    assert(x1 == "--"@ + name + "="@ + value);
    assert(x2 == "--"@ + name);
    assert(a2[1] == value);
    assert(x1 != "--"@) by {
        assert(x1.len() > 2);
    }
    assert(x2 != "--"@) by {
        assert(x2.len() > 2);
    }
    assert(text::is_prefix("--"@, x1)) by {
        assert(x1.subrange(0, 2) == "--"@);
    }
    assert(text::is_prefix("--"@, x2)) by {
        assert(x2.subrange(0, 2) == "--"@);
    }
    assert(x1.skip(2) == name + "="@ + value);
    assert(x2.skip(2) == name);
    lemma_first_eq(name, value);
    lemma_no_eq(name);
    let s1 = name + "="@ + value;
    assert(s1.take(name.len() as int) == name);
    assert(s1.skip((name.len() + 1) as int) == value);
    let di = long_index(defs, name)->Some_0;
    let v2 = vals.update(di, with_value(vals[di], defs[di].kind, value));
    assert(flag_step(defs, a1, 0, vals) == FlagStep::Advance(1, v2));
    assert(flag_step(defs, a2, 0, vals) == FlagStep::Advance(2, v2));
    lemma_parse_from_suffix(defs, a1, 1, v2, pos);
    lemma_parse_from_suffix(defs, a2, 2, v2, pos);
    assert(a1.skip(1) == post);
    assert(a2.skip(2) == post);
}

fn find_long(defs: &[FlagDef], name: &str) -> (r: Option<usize>)
    ensures
        match r {
            Some(k) => long_index(def_views(defs@), name@) == Some(k as int),
            None => long_index(def_views(defs@), name@) is None,
        },
{
    let ghost dv = def_views(defs@);
    let mut i: usize = defs.len();
    assert(dv.take(defs.len() as int) == dv);
    while i > 0
        invariant
            i <= defs.len(),
            dv == def_views(defs@),
            long_index(dv, name@) == long_index(dv.take(i as int), name@),
        decreases i,
    {
        proof {
            assert(dv.take(i as int).last() == defs@[i - 1]@);
            assert(dv.take(i as int).drop_last() == dv.take(i - 1));
        }
        if text::str_eq(defs[i - 1].long.as_str(), name) {
            return Some(i - 1);
        }
        i -= 1;
    }
    None
}

fn find_short(defs: &[FlagDef], c: char) -> (r: Option<usize>)
    ensures
        match r {
            Some(k) => short_index(def_views(defs@), c) == Some(k as int),
            None => short_index(def_views(defs@), c) is None,
        },
{
    let ghost dv = def_views(defs@);
    let mut i: usize = defs.len();
    assert(dv.take(defs.len() as int) == dv);
    while i > 0
        invariant
            i <= defs.len(),
            dv == def_views(defs@),
            short_index(dv, c) == short_index(dv.take(i as int), c),
        decreases i,
    {
        proof {
            assert(dv.take(i as int).last() == defs@[i - 1]@);
            assert(dv.take(i as int).drop_last() == dv.take(i - 1));
        }
        if defs[i - 1].short == Some(c) {
            return Some(i - 1);
        }
        i -= 1;
    }
    None
}

proof fn lemma_long_index_range(defs: Seq<FlagDefView>, name: Seq<char>)
    ensures
        long_index(defs, name) matches Some(k) ==> 0 <= k < defs.len(),
    decreases defs.len(),
{
    if defs.len() > 0 {
        lemma_long_index_range(defs.drop_last(), name);
    }
}

proof fn lemma_short_index_range(defs: Seq<FlagDefView>, c: char)
    ensures
        short_index(defs, c) matches Some(k) ==> 0 <= k < defs.len(),
    decreases defs.len(),
{
    if defs.len() > 0 {
        lemma_short_index_range(defs.drop_last(), c);
    }
}

proof fn lemma_first_of(s: Seq<char>, c: char, i: int)
    requires
        0 <= i <= s.len(),
        forall|k: int| 0 <= k < i ==> s[k] != c,
    ensures
        i < s.len() && s[i] == c ==> first_of(s, c) == Some(i as nat),
        i == s.len() ==> first_of(s, c) is None,
    decreases i,
{
    if i > 0 {
        lemma_first_of(s.drop_first(), c, i - 1);
    } else if s.len() > 0 && s[0] == c {
    }
}

/// Splits `name[=value]` at its first `=`.
pub fn split_long(rest: &str) -> (r: (String, bool, String))
    ensures
        long_parts(rest@) == (r.0@, r.1, r.2@),
{
    let cs = text::chars_of(rest);
    let mut i: usize = 0;
    while i < cs.len() && cs[i] != '='
        invariant
            i <= cs.len(),
            cs@ == rest@,
            forall|k: int| 0 <= k < i ==> cs@[k] != '=',
        decreases cs.len() - i,
    {
        i += 1;
    }
    proof {
        lemma_first_of(rest@, '=', i as int);
    }
    if i < cs.len() {
        let name = text::string_of(text::slice_of(cs.as_slice(), 0, i).as_slice());
        let val = text::string_of(text::slice_of(cs.as_slice(), i + 1, cs.len()).as_slice());
        assert(rest@.skip(i + 1) == rest@.subrange(i + 1, rest@.len() as int));
        (name, true, val)
    } else {
        assert(rest@.subrange(0, i as int) == rest@);
        (text::string_of(cs.as_slice()), false, String::new())
    }
}

/// What [`flag_one`] did.
enum Moved {
    Advance(usize),
    Positional,
    Rest,
    Fail(errors::Error),
}

fn set_value(vals: &mut Vec<FlagVal>, di: usize, kind: FlagKind, val: String)
    requires
        di < old(vals).len(),
    ensures
        final(vals).len() == old(vals).len(),
        val_views(final(vals)@) == val_views(old(vals)@).update(
            di as int,
            with_value(old(vals)@[di as int]@, kind, val@),
        ),
{
    let old_v = vals[di].clone();
    let nv = if kind == FlagKind::Slice {
        let mut list = old_v.list;
        list.push(val);
        FlagVal { seen: true, str: old_v.str, list, boolean: old_v.boolean }
    } else {
        FlagVal { seen: true, str: val, list: old_v.list, boolean: old_v.boolean }
    };
    proof {
        if kind == FlagKind::Slice {
            assert(nv@.list == old(vals)@[di as int]@.list.push(val@));
        }
    }
    vals.set(di, nv);
    assert(val_views(vals@) == val_views(old(vals)@).update(
        di as int,
        with_value(old(vals)@[di as int]@, kind, val@),
    ));
}

fn set_bool(vals: &mut Vec<FlagVal>, di: usize, b: bool)
    requires
        di < old(vals).len(),
    ensures
        final(vals).len() == old(vals).len(),
        val_views(final(vals)@) == val_views(old(vals)@).update(
            di as int,
            with_bool(old(vals)@[di as int]@, b),
        ),
{
    let old_v = vals[di].clone();
    let nv = FlagVal { seen: true, str: old_v.str, list: old_v.list, boolean: b };
    vals.set(di, nv);
    assert(val_views(vals@) == val_views(old(vals)@).update(
        di as int,
        with_bool(old(vals)@[di as int]@, b),
    ));
}

fn bool_error(val: &str, tail: &str, name: &str) -> (e: errors::Error)
    ensures
        e.kind_spec() == errors::Kind::InvalidInput && e.class_spec() == errors::Kind::InvalidInput,
        e.kind_spec() == errors::Kind::InvalidInput,
        e.text_spec() == "invalid boolean value "@ + text::quoted(val@) + tail@ + name@,
{
    let mut m = text::owned("invalid boolean value ");
    let q = text::quote(val);
    text::append(&mut m, q.as_str());
    text::append(&mut m, tail);
    text::append(&mut m, name);
    proof {
        reveal_strlit("invalid boolean value ");
    }
    errors::new(errors::Kind::InvalidInput, m)
}

fn usage_error(head: &str, name: &str) -> (e: errors::Error)
    requires
        head@.len() > 0,
    ensures
        e.kind_spec() == errors::Kind::InvalidInput && e.class_spec() == errors::Kind::InvalidInput,
        e.kind_spec() == errors::Kind::InvalidInput,
        e.text_spec() == head@ + name@,
{
    let mut m = text::owned(head);
    text::append(&mut m, name);
    errors::new(errors::Kind::InvalidInput, m)
}

/// Applies argument `i`.
#[verifier::rlimit(60)]
fn flag_one(defs: &[FlagDef], args: &[String], i: usize, vals: &mut Vec<FlagVal>) -> (r: Moved)
    requires
        i < args.len(),
        old(vals).len() == defs.len(),
    ensures
        final(vals).len() == defs.len(),
        ({
            let st = flag_step(def_views(defs@), text::views(args@), i as nat, val_views(old(vals)@));
            match r {
                Moved::Advance(k) => (k == 1 || k == 2) && i + k <= args.len() && st
                    == FlagStep::Advance(k as nat, val_views(final(vals)@)),
                Moved::Positional => st == FlagStep::Positional && final(vals)@ == old(vals)@,
                Moved::Rest => st == FlagStep::Rest && final(vals)@ == old(vals)@,
                Moved::Fail(e) => st == FlagStep::Fail(e.text_spec()) && e.kind_spec() == errors::Kind::InvalidInput && e.class_spec() == errors::Kind::InvalidInput && e.kind_spec() == errors::Kind::InvalidInput,
            }
        }),
{
    let ghost dv = def_views(defs@);
    let ghost va = text::views(args@);
    let ghost v0 = val_views(vals@);
    let a = args[i].as_str();
    assert(va[i as int] == a@);
    if i + 1 < args.len() {
        assert(va[i + 1] == args@[i + 1]@);
    }
    proof {
        reveal_strlit("--");
        reveal_strlit("-");
        reveal_strlit("=");
        reveal_strlit("unknown flag: --");
        reveal_strlit("unknown shorthand flag: -");
        reveal_strlit("flag needs an argument: --");
        reveal_strlit("flag needs an argument: -");
        reveal_strlit(" for --");
        reveal_strlit(" for -");
    }
    if text::str_eq(a, "--") {
        return Moved::Rest;
    }
    if let Some(rest) = text::strip_prefix(a, "--") {
        let (name, has_val, val) = split_long(rest.as_str());
        assert(rest@ == a@.skip(2));
        let di = match find_long(defs, name.as_str()) {
            Some(d) => d,
            None => {
                let e = usage_error("unknown flag: --", name.as_str());
                return Moved::Fail(e);
            },
        };
        proof {
            lemma_long_index_range(dv, name@);
            assert(dv[di as int] == defs@[di as int]@);
            assert(v0[di as int] == vals@[di as int]@);
        }
        if defs[di].kind == FlagKind::Bool {
            if !has_val {
                set_bool(vals, di, true);
                return Moved::Advance(1);
            }
            match scalar::parse_bool(val.as_str()) {
                Ok(b) => {
                    set_bool(vals, di, b);
                    return Moved::Advance(1);
                },
                Err(_) => {
                    let e = bool_error(val.as_str(), " for --", name.as_str());
                    return Moved::Fail(e);
                },
            }
        }
        if !has_val {
            if i + 1 >= args.len() {
                let e = usage_error("flag needs an argument: --", name.as_str());
                return Moved::Fail(e);
            }
            set_value(vals, di, defs[di].kind, args[i + 1].clone());
            return Moved::Advance(2);
        }
        set_value(vals, di, defs[di].kind, val);
        return Moved::Advance(1);
    }
    let cs = text::chars_of(a);
    if text::str_starts_with(a, "-") && cs.len() > 1 {
        let sh = cs[1];
        let di = match find_short(defs, sh) {
            Some(d) => d,
            None => {
                let mut shs = String::new();
                text::push_char(&mut shs, sh);
                let e = usage_error("unknown shorthand flag: -", shs.as_str());
                assert(shs@ == seq![sh]);
                return Moved::Fail(e);
            },
        };
        proof {
            lemma_short_index_range(dv, sh);
            assert(dv[di as int] == defs@[di as int]@);
            assert(v0[di as int] == vals@[di as int]@);
        }
        let after = text::slice_of(cs.as_slice(), 2, cs.len());
        assert(after@ == a@.skip(2));
        let rest_cs = if after.len() > 0 && after[0] == '=' {
            assert(a@.skip(2).subrange(0, 1) =~= "="@);
            assert(text::is_prefix("="@, a@.skip(2)));
            let r = text::slice_of(after.as_slice(), 1, after.len());
            assert(r@ == a@.skip(3));
            r
        } else {
            assert(after@.len() == 0 || after@[0] != '=');
            assert(!text::is_prefix("="@, a@.skip(2))) by {
                if text::is_prefix("="@, a@.skip(2)) {
                    assert(a@.skip(2).subrange(0, 1)[0] == "="@[0]);
                }
            }
            after
        };
        let rest = text::string_of(rest_cs.as_slice());
        let mut shs = String::new();
        text::push_char(&mut shs, sh);
        assert(shs@ == seq![sh]);
        if defs[di].kind == FlagKind::Bool {
            if rest_cs.len() == 0 {
                set_bool(vals, di, true);
                return Moved::Advance(1);
            }
            match scalar::parse_bool(rest.as_str()) {
                Ok(b) => {
                    set_bool(vals, di, b);
                    return Moved::Advance(1);
                },
                Err(_) => {
                    let e = bool_error(rest.as_str(), " for -", shs.as_str());
                    return Moved::Fail(e);
                },
            }
        }
        if rest_cs.len() == 0 {
            if i + 1 >= args.len() {
                let e = usage_error("flag needs an argument: -", shs.as_str());
                return Moved::Fail(e);
            }
            set_value(vals, di, defs[di].kind, args[i + 1].clone());
            return Moved::Advance(2);
        }
        set_value(vals, di, defs[di].kind, rest);
        return Moved::Advance(1);
    }
    Moved::Positional
}

/// Parses the flags in `args` against `defs`: each flag's value and the
/// remaining positional arguments.
pub fn parse_flags(defs: &[FlagDef], args: &[String]) -> (r: Result<
    (Vec<FlagVal>, Vec<String>),
    errors::Error,
>)
    ensures
        match r {
            Ok((vals, pos)) => parse_spec(def_views(defs@), text::views(args@)) == Ok::<
                (Seq<FlagValView>, Seq<Seq<char>>),
                Seq<char>,
            >((val_views(vals@), text::views(pos@))),
            Err(e) => parse_spec(def_views(defs@), text::views(args@)) is Err && e.kind_spec() == errors::Kind::InvalidInput && e.class_spec() == errors::Kind::InvalidInput && e.kind_spec() == errors::Kind::InvalidInput && e.text_spec() == parse_spec(
                def_views(defs@),
                text::views(args@),
            )->Err_0,
        },
{
    let ghost dv = def_views(defs@);
    let ghost va = text::views(args@);
    let mut vals: Vec<FlagVal> = Vec::new();
    let mut k: usize = 0;
    while k < defs.len()
        invariant
            k <= defs.len(),
            vals.len() == k,
            val_views(vals@) == unset_vals(k as nat),
        decreases defs.len() - k,
    {
        let ghost before = val_views(vals@);
        vals.push(FlagVal::default());
        assert(val_views(vals@) == before.push(unset_val()));
        assert(unset_vals((k + 1) as nat) == unset_vals(k as nat).push(unset_val()));
        k += 1;
    }
    let mut pos: Vec<String> = Vec::new();
    let mut i: usize = 0;
    assert(text::views(pos@) == Seq::<Seq<char>>::empty());
    while i < args.len()
        invariant
            i <= args.len(),
            vals.len() == defs.len(),
            dv == def_views(defs@),
            va == text::views(args@),
            parse_spec(dv, va) == parse_from(dv, va, i as nat, val_views(vals@), text::views(pos@)),
        decreases args.len() - i,
    {
        match flag_one(defs, args, i, &mut vals) {
            Moved::Advance(n) => {
                i += n;
            },
            Moved::Positional => {
                let ghost before = pos@;
                pos.push(args[i].clone());
                assert(text::views(pos@) == text::views(before).push(va[i as int]));
                i += 1;
            },
            Moved::Rest => {
                let ghost before = pos@;
                let mut j = i + 1;
                assert(va.subrange(i + 1, j as int) == Seq::<Seq<char>>::empty());
                assert(text::views(pos@) == text::views(before) + va.subrange(i + 1, j as int));
                while j < args.len()
                    invariant
                        i + 1 <= j <= args.len(),
                        va == text::views(args@),
                        text::views(pos@) == text::views(before) + va.subrange(i + 1, j as int),
                    decreases args.len() - j,
                {
                    let ghost prev = pos@;
                    pos.push(args[j].clone());
                    assert(text::views(pos@) == text::views(prev).push(va[j as int]));
                    assert(va.subrange(i + 1, j + 1) == va.subrange(i + 1, j as int).push(
                        va[j as int],
                    ));
                    j += 1;
                }
                assert(va.subrange(i + 1, args.len() as int) == va.skip(i + 1));
                return Ok((vals, pos));
            },
            Moved::Fail(e) => {
                return Err(e);
            },
        }
    }
    Ok((vals, pos))
}

} // verus!
