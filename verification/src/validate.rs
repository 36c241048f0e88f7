//! The `validate` tag: a subset of the common validator-tag syntax
//! (`required,min=2,oneof=fast slow`), parsed at registration so an
//! unsupported rule is refused then rather than ignored at run time.
use vstd::prelude::*;
use crate::builtins;
use crate::errors;
use crate::field::{self, FieldMeta};
use crate::scalar;
use crate::text;

verus! {

/// One parsed rule.  A numeric rule keeps its argument as written (it is
/// compared as a 64-bit float when values are checked); `args` holds the
/// words of a `oneof`.
#[derive(Debug)]
pub struct VRule {
    pub key: String,
    pub args: Vec<String>,
    /// The numeric argument's text (numeric rules only).
    pub num: Option<String>,
}

/// A rule as plain values.
pub struct RuleView {
    pub key: Seq<char>,
    pub args: Seq<Seq<char>>,
    pub num: Option<Seq<char>>,
}

impl View for VRule {
    type V = RuleView;

    open spec fn view(&self) -> RuleView {
        RuleView {
            key: self.key@,
            args: text::views(self.args@),
            num: match self.num {
                Some(n) => Some(n@),
                None => None,
            },
        }
    }
}

/// The rules with one numeric argument.
pub open spec fn numeric_rule(k: Seq<char>) -> bool {
    k == "min"@ || k == "max"@ || k == "len"@ || k == "gt"@ || k == "gte"@ || k == "lt"@ || k == "lte"@
}

/// The rules this validator knows.
pub open spec fn supported_rule(k: Seq<char>) -> bool {
    k == "required"@ || k == "omitempty"@ || numeric_rule(k) || k == "oneof"@ || k == "email"@
}

// ------------------------------------------------------------ words
/// The maximal runs of non-whitespace characters (`str::split_whitespace`).
pub open spec fn words(s: Seq<char>) -> Seq<Seq<char>>
    decreases s.len(),
{
    if s.len() == 0 {
        Seq::empty()
    } else {
        let w = words(s.drop_last());
        let c = s.last();
        if text::is_ws(c) {
            w
        } else if s.len() >= 2 && !text::is_ws(s[s.len() - 2]) {
            w.update(w.len() - 1, w.last().push(c))
        } else {
            w.push(seq![c])
        }
    }
}

/// A text ending in a word character has at least one word.
proof fn lemma_words_nonempty(s: Seq<char>)
    requires
        s.len() > 0,
        !text::is_ws(s.last()),
    ensures
        words(s).len() > 0,
    decreases s.len(),
{
    if s.len() >= 2 && !text::is_ws(s[s.len() - 2]) {
        assert(s.drop_last().last() == s[s.len() - 2]);
        lemma_words_nonempty(s.drop_last());
    }
}

/// The whitespace-separated words of a text.
pub fn split_whitespace(s: &str) -> (r: Vec<String>)
    ensures
        text::views(r@) == words(s@),
{
    let cs = text::chars_of(s);
    let mut out: Vec<String> = Vec::new();
    let mut cur: Vec<char> = Vec::new();
    let mut i: usize = 0;
    while i < cs.len()
        invariant
            i <= cs.len(),
            cs@ == s@,
            i > 0 && !text::is_ws(s@[i - 1]) ==> words(s@.take(i as int)) == text::views(out@).push(cur@)
                && cur@.len() > 0,
            !(i > 0 && !text::is_ws(s@[i - 1])) ==> words(s@.take(i as int)) == text::views(out@) && cur@.len()
                == 0,
        decreases cs.len() - i,
    {
        let c = cs[i];
        let ws = text::char_is_ws(c);
        proof {
            let t = s@.take(i + 1);
            assert(t.drop_last() == s@.take(i as int));
            assert(t.last() == c);
            if i > 0 {
                assert(t[t.len() - 2] == s@[i - 1]);
            }
        }
        if ws {
            if cur.len() > 0 {
                let ghost before = text::views(out@);
                out.push(text::string_of(cur.as_slice()));
                assert(text::views(out@) == before.push(cur@));
                cur = Vec::new();
            }
        } else {
            proof {
                if i > 0 && !text::is_ws(s@[i - 1]) {
                    let w = words(s@.take(i as int));
                    assert(w.update(w.len() - 1, w.last().push(c)) == text::views(out@).push(cur@.push(c)));
                }
            }
            cur.push(c);
            proof {
                if !(i > 0 && !text::is_ws(s@[i - 1])) {
                    assert(cur@ =~= seq![c]);
                }
            }
        }
        i += 1;
    }
    if cur.len() > 0 {
        let ghost before = text::views(out@);
        out.push(text::string_of(cur.as_slice()));
        assert(text::views(out@) == before.push(cur@));
    }
    assert(s@.take(cs.len() as int) == s@);
    out
}

// ------------------------------------------------------------ float syntax
/// An ASCII digit.
pub open spec fn digit(c: char) -> bool {
    '0' <= c && c <= '9'
}

/// All characters are digits.
pub open spec fn all_digits(s: Seq<char>) -> bool {
    forall|i: int| 0 <= i < s.len() ==> digit(#[trigger] s[i])
}

/// The place of the first `e` or `E` (the length when there is none).
pub open spec fn exp_at(s: Seq<char>, i: int) -> int
    decreases s.len() - i,
{
    if i < 0 || i >= s.len() {
        s.len() as int
    } else if s[i] == 'e' || s[i] == 'E' {
        i
    } else {
        exp_at(s, i + 1)
    }
}

/// The place of the first `.` (the length when there is none).
pub open spec fn dot_at(s: Seq<char>, i: int) -> int
    decreases s.len() - i,
{
    if i < 0 || i >= s.len() {
        s.len() as int
    } else if s[i] == '.' {
        i
    } else {
        dot_at(s, i + 1)
    }
}

/// `Digit+ | Digit+ '.' Digit* | Digit* '.' Digit+`.
pub open spec fn mantissa_ok(m: Seq<char>) -> bool {
    let d = dot_at(m, 0);
    if d == m.len() {
        m.len() > 0 && all_digits(m)
    } else {
        let a = m.take(d);
        let b = m.skip(d + 1);
        all_digits(a) && all_digits(b) && (a.len() > 0 || b.len() > 0)
    }
}

/// `Exp ::= 'e' Sign? Digit+` (either case), or nothing.
pub open spec fn exponent_ok(x: Seq<char>) -> bool {
    if x.len() == 0 {
        true
    } else {
        let y = x.drop_first();
        let z = if y.len() > 0 && (y[0] == '+' || y[0] == '-') {
            y.drop_first()
        } else {
            y
        };
        z.len() > 0 && all_digits(z)
    }
}

/// The texts std reads as a 64-bit float (`f64::from_str`, as its
/// documentation gives the grammar): an optional sign, then `inf`,
/// `infinity` or `nan` in any case, or a decimal number with an optional
/// exponent.
pub open spec fn float_text(s: Seq<char>) -> bool {
    let t = if s.len() > 0 && (s[0] == '+' || s[0] == '-') {
        s.drop_first()
    } else {
        s
    };
    let l = text::lower(t);
    let e = exp_at(t, 0);
    l == "inf"@ || l == "infinity"@ || l == "nan"@ || (mantissa_ok(t.take(e)) && exponent_ok(t.skip(e)))
}

fn digits_only(s: &[char], from: usize, to: usize) -> (r: bool)
    requires
        from <= to <= s.len(),
    ensures
        r == all_digits(s@.subrange(from as int, to as int)),
{
    let mut i: usize = from;
    while i < to
        invariant
            from <= i <= to <= s.len(),
            forall|k: int| from <= k < i ==> digit(#[trigger] s@[k]),
        decreases to - i,
    {
        if !('0' <= s[i] && s[i] <= '9') {
            assert(s@.subrange(from as int, to as int)[i - from] == s@[i as int]);
            return false;
        }
        i += 1;
    }
    assert forall|k: int| 0 <= k < to - from implies digit(#[trigger] s@.subrange(from as int, to as int)[k]) by {
        assert(s@.subrange(from as int, to as int)[k] == s@[from + k]);
    }
    true
}

fn first_of(s: &[char], from: usize, to: usize, a: char, b: char) -> (r: usize)
    requires
        from <= to <= s.len(),
    ensures
        from <= r <= to,
        r < to ==> (s@[r as int] == a || s@[r as int] == b),
        forall|k: int| from <= k < r ==> s@[k] != a && s@[k] != b,
{
    let mut i: usize = from;
    while i < to
        invariant
            from <= i <= to <= s.len(),
            forall|k: int| from <= k < i ==> s@[k] != a && s@[k] != b,
        decreases to - i,
    {
        if s[i] == a || s[i] == b {
            return i;
        }
        i += 1;
    }
    to
}

proof fn lemma_exp_at(s: Seq<char>, i: int, r: int)
    requires
        0 <= i <= r <= s.len(),
        r < s.len() ==> (s[r] == 'e' || s[r] == 'E'),
        forall|k: int| i <= k < r ==> s[k] != 'e' && s[k] != 'E',
    ensures
        exp_at(s, i) == r,
    decreases r - i,
{
    if i < r {
        lemma_exp_at(s, i + 1, r);
    }
}

proof fn lemma_dot_at(s: Seq<char>, i: int, r: int)
    requires
        0 <= i <= r <= s.len(),
        r < s.len() ==> s[r] == '.',
        forall|k: int| i <= k < r ==> s[k] != '.',
    ensures
        dot_at(s, i) == r,
    decreases r - i,
{
    if i < r {
        lemma_dot_at(s, i + 1, r);
    }
}

/// Whether std reads the text as a 64-bit float.
pub fn is_float_text(s: &str) -> (r: bool)
    ensures
        r == float_text(s@),
{
    let all = text::chars_of(s);
    let start: usize = if all.len() > 0 && (all[0] == '+' || all[0] == '-') {
        1
    } else {
        0
    };
    let t = text::slice_of(all.as_slice(), start, all.len());
    let ghost tv = if s@.len() > 0 && (s@[0] == '+' || s@[0] == '-') {
        s@.drop_first()
    } else {
        s@
    };
    assert(t@ == tv);
    let ts = text::string_of(t.as_slice());
    let l = text::to_ascii_lower(ts.as_str());
    if text::str_eq(l.as_str(), "inf") || text::str_eq(l.as_str(), "infinity") || text::str_eq(l.as_str(), "nan") {
        return true;
    }
    let n = t.len();
    let e = first_of(t.as_slice(), 0, n, 'e', 'E');
    proof {
        lemma_exp_at(tv, 0, e as int);
    }
    let d = first_of(t.as_slice(), 0, e, '.', '.');
    let m_ok = if d == e {
        e > 0 && digits_only(t.as_slice(), 0, e)
    } else {
        digits_only(t.as_slice(), 0, d) && digits_only(t.as_slice(), d + 1, e) && (d > 0 || e > d + 1)
    };
    proof {
        let m = tv.take(e as int);
        lemma_dot_at(m, 0, d as int);
        assert(m.take(d as int) == tv.subrange(0, d as int));
        if d < e {
            assert(m.skip(d + 1) == tv.subrange(d + 1, e as int));
        }
        assert(tv.subrange(0, e as int) == m);
    }
    let x_ok = if e == n {
        true
    } else {
        let mut j = e + 1;
        if j < n && (t[j] == '+' || t[j] == '-') {
            j = j + 1;
        }
        j < n && digits_only(t.as_slice(), j, n)
    };
    proof {
        let x = tv.skip(e as int);
        if e < n {
            let y = x.drop_first();
            assert(y == tv.subrange(e + 1, n as int));
            if y.len() > 0 && (y[0] == '+' || y[0] == '-') {
                assert(y.drop_first() == tv.subrange(e + 2, n as int));
            }
        }
    }
    m_ok && x_ok
}

// ------------------------------------------------------------ the tag
/// A rule part split at its first `=` into the trimmed key and the rest.
pub open spec fn rule_parts(part: Seq<char>) -> (Seq<char>, Seq<char>) {
    let (k, has, v) = crate::cli::parse::long_parts(part);
    if has {
        (text::trim(k), v)
    } else {
        (part, Seq::empty())
    }
}

/// The refusal of an unknown rule.
pub open spec fn unsupported_message(key: Seq<char>) -> Seq<char> {
    "unsupported validate rule "@ + text::quoted(key)
        + " (supported: required, omitempty, min, max, len, gt, gte, lt, lte, oneof, email)"@
}

/// The refusal of a numeric rule without exactly one argument.
pub open spec fn arity_message(key: Seq<char>, rest: Seq<char>) -> Seq<char> {
    "validate rule "@ + text::quoted(key) + " needs exactly one numeric argument, got "@ + text::quoted(rest)
}

/// The refusal of a numeric rule whose argument is not a number.
pub open spec fn number_message(key: Seq<char>, arg: Seq<char>) -> Seq<char> {
    "validate rule "@ + text::quoted(key) + ": "@ + text::quoted(arg) + " is not a number"@
}

/// One rule part: the rule, or why it is refused.
pub open spec fn rule_of(part: Seq<char>) -> Result<RuleView, Seq<char>> {
    let (key, rest) = rule_parts(part);
    let args = words(rest);
    if !supported_rule(key) {
        Err(unsupported_message(key))
    } else if numeric_rule(key) {
        if args.len() != 1 {
            Err(arity_message(key, rest))
        } else if !float_text(args[0]) {
            Err(number_message(key, args[0]))
        } else {
            Ok(RuleView { key, args: Seq::empty(), num: Some(args[0]) })
        }
    } else {
        Ok(RuleView { key, args, num: None })
    }
}

/// The rules of the trimmed, non-empty comma-separated parts, in order;
/// the first refused part decides.
pub open spec fn rules_of(parts: Seq<Seq<char>>) -> Result<Seq<RuleView>, Seq<char>>
    decreases parts.len(),
{
    if parts.len() == 0 {
        Ok(Seq::empty())
    } else {
        match rules_of(parts.drop_last()) {
            Err(m) => Err(m),
            Ok(rs) => {
                let p = text::trim(parts.last());
                if p.len() == 0 {
                    Ok(rs)
                } else {
                    match rule_of(p) {
                        Err(m) => Err(m),
                        Ok(r) => Ok(rs.push(r)),
                    }
                }
            },
        }
    }
}

/// The rules of a `validate` tag (none for a blank tag).
pub open spec fn validate_spec(v: Seq<char>) -> Result<Seq<RuleView>, Seq<char>> {
    if text::trim(v).len() == 0 {
        Ok(Seq::empty())
    } else {
        rules_of(text::split(v, ','))
    }
}

fn is_numeric_rule(k: &str) -> (r: bool)
    ensures
        r == numeric_rule(k@),
{
    text::str_eq(k, "min") || text::str_eq(k, "max") || text::str_eq(k, "len") || text::str_eq(k, "gt")
        || text::str_eq(k, "gte") || text::str_eq(k, "lt") || text::str_eq(k, "lte")
}

fn is_supported_rule(k: &str) -> (r: bool)
    ensures
        r == supported_rule(k@),
{
    text::str_eq(k, "required") || text::str_eq(k, "omitempty") || is_numeric_rule(k) || text::str_eq(k, "oneof")
        || text::str_eq(k, "email")
}

fn parse_rule(part: &str) -> (r: Result<VRule, errors::Error>)
    ensures
        match rule_of(part@) {
            Ok(v) => r matches Ok(x) && x@ == v,
            Err(m) => r matches Err(e) && e.text_spec() == m && e.kind_spec() == errors::Kind::Internal && e.class_spec() == errors::Kind::Internal,
        },
{
    let (k0, has, v) = crate::cli::parse::split_long(part);
    let (key, rest) = if has {
        (text::str_trim(k0.as_str()), v)
    } else {
        (text::owned(part), String::new())
    };
    let args = split_whitespace(rest.as_str());
    if !is_supported_rule(key.as_str()) {
        let mut m = text::owned("unsupported validate rule ");
        let q = text::quote(key.as_str());
        text::append(&mut m, q.as_str());
        text::append(&mut m, " (supported: required, omitempty, min, max, len, gt, gte, lt, lte, oneof, email)");
        proof {
            reveal_strlit("unsupported validate rule ");
        }
        return Err(errors::new(errors::Kind::Internal, m));
    }
    if is_numeric_rule(key.as_str()) {
        if args.len() != 1 {
            let mut m = text::owned("validate rule ");
            let q = text::quote(key.as_str());
            text::append(&mut m, q.as_str());
            text::append(&mut m, " needs exactly one numeric argument, got ");
            let qr = text::quote(rest.as_str());
            text::append(&mut m, qr.as_str());
            proof {
                reveal_strlit("validate rule ");
            }
            return Err(errors::new(errors::Kind::Internal, m));
        }
        if !is_float_text(args[0].as_str()) {
            let mut m = text::owned("validate rule ");
            let q = text::quote(key.as_str());
            text::append(&mut m, q.as_str());
            text::append(&mut m, ": ");
            let qa = text::quote(args[0].as_str());
            text::append(&mut m, qa.as_str());
            text::append(&mut m, " is not a number");
            proof {
                reveal_strlit("validate rule ");
            }
            return Err(errors::new(errors::Kind::Internal, m));
        }
        let num = args[0].clone();
        let rule = VRule { key, args: Vec::new(), num: Some(num) };
        assert(rule@.args =~= Seq::<Seq<char>>::empty());
        return Ok(rule);
    }
    Ok(VRule { key, args, num: None })
}

/// Parses a `validate` tag: comma-separated rules, each argument given
/// after `=` and separated by spaces (`required,min=2,oneof=fast slow`);
/// an unknown rule, a numeric rule without exactly one argument, or one
/// whose argument is not a number is refused.
pub fn parse_validate_tag(v: &str) -> (r: Result<Vec<VRule>, errors::Error>)
    ensures
        match validate_spec(v@) {
            Ok(rs) => r matches Ok(out) && out@.map_values(|x: VRule| x@) == rs,
            Err(m) => r matches Err(e) && e.text_spec() == m && e.kind_spec() == errors::Kind::Internal && e.class_spec() == errors::Kind::Internal,
        },
{
    let tv = text::str_trim(v);
    if tv.as_str().is_empty() {
        let none: Vec<VRule> = Vec::new();
        assert(none@.map_values(|x: VRule| x@) =~= Seq::<RuleView>::empty());
        return Ok(none);
    }
    let cs = text::chars_of(v);
    let pieces = text::split_chars(cs.as_slice(), ',');
    let ghost ps = text::split(v@, ',');
    let mut out: Vec<VRule> = Vec::new();
    let mut i: usize = 0;
    proof {
        assert(ps.take(0) == Seq::<Seq<char>>::empty());
        assert(out@.map_values(|x: VRule| x@) =~= Seq::<RuleView>::empty());
    }
    while i < pieces.len()
        invariant
            i <= pieces.len(),
            pieces@.len() == ps.len(),
            ps == text::split(v@, ','),
            text::trim(v@).len() > 0,
            forall|j: int| 0 <= j < pieces@.len() ==> (#[trigger] pieces@[j])@ == ps[j],
            rules_of(ps.take(i as int)) == Ok::<Seq<RuleView>, Seq<char>>(out@.map_values(|x: VRule| x@)),
        decreases pieces.len() - i,
    {
        proof {
            assert(ps.take(i + 1).drop_last() == ps.take(i as int));
            assert(ps.take(i + 1).last() == ps[i as int]);
        }
        let part = text::trim_chars(pieces[i].as_slice());
        if part.len() > 0 {
            let ps_text = text::string_of(part.as_slice());
            match parse_rule(ps_text.as_str()) {
                Err(e) => {
                    proof {
                        assert(ps_text@ == text::trim(ps[i as int]));
                        assert(rule_of(ps_text@) == Err::<RuleView, Seq<char>>(e.text_spec()));
                        assert(rules_of(ps.take(i + 1)) == Err::<Seq<RuleView>, Seq<char>>(e.text_spec()));
                        lemma_rules_err(ps, i as int + 1);
                        assert(text::trim(v@).len() > 0);
                    }
                    return Err(e);
                },
                Ok(rule) => {
                    let ghost before = out@.map_values(|x: VRule| x@);
                    let ghost rv = rule@;
                    out.push(rule);
                    assert(out@.map_values(|x: VRule| x@) =~= before.push(rv));
                },
            }
        }
        i += 1;
    }
    assert(ps.take(pieces.len() as int) == ps);
    Ok(out)
}

/// A refused part stays the result for the later parts.
proof fn lemma_rules_err(ps: Seq<Seq<char>>, k: int)
    requires
        0 <= k <= ps.len(),
        rules_of(ps.take(k)) is Err,
    ensures
        rules_of(ps) == rules_of(ps.take(k)),
    decreases ps.len() - k,
{
    if k < ps.len() {
        assert(ps.take(k + 1).drop_last() == ps.take(k));
        lemma_rules_err(ps, k + 1);
    } else {
        assert(ps.take(k) == ps);
    }
}


// ------------------------------------------------------------ checking values
/// The views of a list of rules.
pub open spec fn rule_views(rules: Seq<VRule>) -> Seq<RuleView> {
    rules.map_values(|r: VRule| r@)
}

/// The check of a value against a field's rules, from rule `i` on: for a
/// zero value `omitempty` ends the check and `required` refuses it; any
/// other rule refuses the value where `ok[i]`, the value's own test of
/// that rule, is false.  The first refusal names its rule.
pub open spec fn rules_from(f: FieldMeta, rules: Seq<RuleView>, zero: bool, ok: Seq<bool>, i: int) -> Result<
    (),
    Seq<char>,
>
    decreases rules.len() - i,
{
    if i < 0 || i >= rules.len() {
        Ok(())
    } else {
        let k = rules[i].key;
        if k == "omitempty"@ {
            if zero {
                Ok(())
            } else {
                rules_from(f, rules, zero, ok, i + 1)
            }
        } else if k == "required"@ {
            if zero {
                Err(field::rule_error_text(f, "required"@))
            } else {
                rules_from(f, rules, zero, ok, i + 1)
            }
        } else if !ok[i] {
            Err(field::rule_error_text(f, k))
        } else {
            rules_from(f, rules, zero, ok, i + 1)
        }
    }
}

/// Checks a value of a field against the field's rules, given whether the
/// value is its type's zero value and, rule by rule, whether the value
/// meets the rule (`ok[i]` for `rules[i]`; unused for `omitempty` and
/// `required`).
pub fn check_rules(f: &FieldMeta, rules: &Vec<VRule>, zero: bool, ok: &Vec<bool>) -> (r: Result<(), errors::Error>)
    requires
        ok.len() == rules.len(),
    ensures
        match rules_from(*f, rule_views(rules@), zero, ok@, 0) {
            Ok(_) => r is Ok,
            Err(m) => r matches Err(e) && e.text_spec() == m && e.kind_spec() == errors::Kind::InvalidInput && e.class_spec() == errors::Kind::InvalidInput,
        },
{
    let ghost rv = rule_views(rules@);
    let mut i: usize = 0;
    while i < rules.len()
        invariant
            i <= rules.len(),
            ok.len() == rules.len(),
            rv == rule_views(rules@),
            rules_from(*f, rv, zero, ok@, 0) == rules_from(*f, rv, zero, ok@, i as int),
        decreases rules.len() - i,
    {
        let k = rules[i].key.as_str();
        assert(rv[i as int].key == k@);
        if text::str_eq(k, "omitempty") {
            if zero {
                return Ok(());
            }
        } else if text::str_eq(k, "required") {
            if zero {
                return Err(field::field_rule_error(f, "required"));
            }
        } else if !ok[i] {
            return Err(field::field_rule_error(f, k));
        }
        i += 1;
    }
    Ok(())
}

/// The outcomes that an optional value gives its rules: those of the
/// value when there is one; none met when there is none.
pub open spec fn opt_outcomes(ok: Option<Seq<bool>>, n: nat) -> Seq<bool> {
    match ok {
        Some(o) => o,
        None => Seq::new(n, |j: int| false),
    }
}

/// Checks an optional value of a field against the field's rules: an
/// absent value is the zero value and meets no other rule; a present one
/// is checked with its own outcomes (`ok`).
pub fn check_opt_rules(f: &FieldMeta, rules: &Vec<VRule>, ok: Option<&Vec<bool>>) -> (r: Result<(), errors::Error>)
    requires
        match ok {
            Some(o) => o.len() == rules.len(),
            None => true,
        },
    ensures
        match rules_from(
            *f,
            rule_views(rules@),
            ok is None,
            opt_outcomes(
                match ok {
                    Some(o) => Some(o@),
                    None => None,
                },
                rules.len() as nat,
            ),
            0,
        ) {
            Ok(_) => r is Ok,
            Err(m) => r matches Err(e) && e.text_spec() == m && e.kind_spec() == errors::Kind::InvalidInput && e.class_spec() == errors::Kind::InvalidInput,
        },
{
    match ok {
        Some(o) => check_rules(f, rules, false, o),
        None => {
            let mut none: Vec<bool> = Vec::new();
            let mut i: usize = 0;
            while i < rules.len()
                invariant
                    i <= rules.len(),
                    none@ == Seq::new(i as nat, |j: int| false),
                decreases rules.len() - i,
            {
                none.push(false);
                i += 1;
                assert(none@ =~= Seq::new(i as nat, |j: int| false));
            }
            check_rules(f, rules, true, &none)
        },
    }
}

/// The rules that count a list's items.
pub open spec fn count_rule(k: Seq<char>) -> bool {
    k == "min"@ || k == "max"@ || k == "len"@
}

/// The check of a list against a field's rules, from rule `i` on:
/// `omitempty` and `required` as for a single value, an empty list being
/// the zero value; `min`, `max` and `len` by `count_ok[i]`, the outcome of
/// the rule on the list's length; `oneof` by whether one of its words is
/// `shown`, the list as `[a b c]`; any other rule refuses the list.
pub open spec fn list_rules_from(
    f: FieldMeta,
    rules: Seq<RuleView>,
    empty: bool,
    shown: Seq<char>,
    count_ok: Seq<bool>,
    i: int,
) -> Result<(), Seq<char>>
    decreases rules.len() - i,
{
    if i < 0 || i >= rules.len() {
        Ok(())
    } else {
        let k = rules[i].key;
        if k == "omitempty"@ {
            if empty {
                Ok(())
            } else {
                list_rules_from(f, rules, empty, shown, count_ok, i + 1)
            }
        } else if k == "required"@ {
            if empty {
                Err(field::rule_error_text(f, "required"@))
            } else {
                list_rules_from(f, rules, empty, shown, count_ok, i + 1)
            }
        } else if count_rule(k) {
            if !count_ok[i] {
                Err(field::rule_error_text(f, k))
            } else {
                list_rules_from(f, rules, empty, shown, count_ok, i + 1)
            }
        } else if k == "oneof"@ {
            if !rules[i].args.contains(shown) {
                Err(field::rule_error_text(f, k))
            } else {
                list_rules_from(f, rules, empty, shown, count_ok, i + 1)
            }
        } else {
            Err(field::rule_error_text(f, k))
        }
    }
}

/// Checks a list value of a field against the field's rules, given its
/// length, its items shown as `[a b c]`, and the outcome of each counting
/// rule on the length (`count_ok[i]` for `rules[i]`).
pub fn check_vec_rules(f: &FieldMeta, rules: &Vec<VRule>, len: usize, shown: &str, count_ok: &Vec<bool>) -> (r: Result<
    (),
    errors::Error,
>)
    requires
        count_ok.len() == rules.len(),
    ensures
        match list_rules_from(*f, rule_views(rules@), len == 0, shown@, count_ok@, 0) {
            Ok(_) => r is Ok,
            Err(m) => r matches Err(e) && e.text_spec() == m && e.kind_spec() == errors::Kind::InvalidInput && e.class_spec() == errors::Kind::InvalidInput,
        },
{
    let ghost rv = rule_views(rules@);
    let empty = len == 0;
    let mut i: usize = 0;
    while i < rules.len()
        invariant
            i <= rules.len(),
            count_ok.len() == rules.len(),
            rv == rule_views(rules@),
            empty == (len == 0),
            list_rules_from(*f, rv, empty, shown@, count_ok@, 0) == list_rules_from(
                *f,
                rv,
                empty,
                shown@,
                count_ok@,
                i as int,
            ),
        decreases rules.len() - i,
    {
        let k = rules[i].key.as_str();
        assert(rv[i as int].key == k@);
        if text::str_eq(k, "omitempty") {
            if empty {
                return Ok(());
            }
        } else if text::str_eq(k, "required") {
            if empty {
                return Err(field::field_rule_error(f, "required"));
            }
        } else if text::str_eq(k, "min") || text::str_eq(k, "max") || text::str_eq(k, "len") {
            if !count_ok[i] {
                return Err(field::field_rule_error(f, k));
            }
        } else if text::str_eq(k, "oneof") {
            assert(rv[i as int].args == text::views(rules@[i as int].args@));
            if !builtins::contains_str(&rules[i].args, shown) {
                return Err(field::field_rule_error(f, k));
            }
        } else {
            return Err(field::field_rule_error(f, k));
        }
        i += 1;
    }
    Ok(())
}


/// A non-zero value that meets each of its field's rules passes the
/// check.
pub proof fn lemma_met_rules_pass(f: FieldMeta, rules: Seq<RuleView>, ok: Seq<bool>, i: int)
    requires
        0 <= i,
        ok.len() == rules.len(),
        forall|j: int| i <= j < rules.len() ==> #[trigger] ok[j],
    ensures
        rules_from(f, rules, false, ok, i) is Ok,
    decreases rules.len() - i,
{
    if i < rules.len() {
        lemma_met_rules_pass(f, rules, ok, i + 1);
    }
}

/// A zero value is refused as `required` where a `required` rule comes
/// before any `omitempty` and each rule in between is met.
pub proof fn lemma_required_refuses_zero(f: FieldMeta, rules: Seq<RuleView>, ok: Seq<bool>, i: int, k: int)
    requires
        0 <= i <= k < rules.len(),
        ok.len() == rules.len(),
        rules[k].key == "required"@,
        forall|j: int| i <= j < k ==> #[trigger] rules[j].key != "omitempty"@ && rules[j].key != "required"@ && ok[j],
    ensures
        rules_from(f, rules, true, ok, i) == Err::<(), Seq<char>>(field::rule_error_text(f, "required"@)),
    decreases k - i,
{
    if i < k {
        lemma_required_refuses_zero(f, rules, ok, i + 1, k);
    } else {
        reveal_strlit("required");
        reveal_strlit("omitempty");
    }
}


/// The element metadata of a container field (`None` where it has none).
pub fn elem_ref(f: &FieldMeta) -> (r: Option<&FieldMeta>)
    ensures
        match f.elem {
            Some(e) => r == Some(&*e),
            None => r is None,
        },
{
    match &f.elem {
        Some(e) => Some(&**e),
        None => None,
    }
}


// ------------------------------------------------------------ one rule's outcome
/// The largest magnitude at which an integer and its 64-bit float agree.
pub open spec fn exact_bound() -> int {
    0x20_0000_0000_0000
}

/// A rule's numeric argument where it is an integer that a 64-bit float
/// holds exactly (`None` for other arguments).
pub open spec fn exact_threshold(r: RuleView) -> Option<int> {
    match r.num {
        Some(t) => match scalar::i64_literal(t) {
            Some(v) => if -exact_bound() <= v <= exact_bound() {
                Some(v)
            } else {
                None
            },
            None => None,
        },
        None => None,
    }
}

/// Whether `n` meets a comparing rule against threshold `t`.
pub open spec fn compare_ok(key: Seq<char>, n: int, t: int) -> bool {
    if key == "min"@ || key == "gte"@ {
        n >= t
    } else if key == "max"@ || key == "lte"@ {
        n <= t
    } else if key == "len"@ {
        n == t
    } else if key == "gt"@ {
        n > t
    } else {
        n < t
    }
}

/// The outcome of one rule on a value with length `len` (texts and
/// lists), numeric value `numeric` (numbers), text `s` (as `oneof` and
/// `email` see it) and whether e-mail checks apply: a length rule fails
/// without a length and a comparing rule without a number; `oneof` needs
/// one of its words; `email` needs the e-mail shape.  `None` where the
/// comparison is the 64-bit float one that this library leaves to the
/// caller: the threshold is not an integer that a float holds exactly, or
/// the value is beyond that range.
pub open spec fn rule_outcome_spec(r: RuleView, len: Option<int>, numeric: Option<int>, s: Seq<char>, email: bool) -> Option<
    bool,
> {
    let k = r.key;
    if k == "min"@ || k == "max"@ || k == "len"@ || k == "gt"@ || k == "gte"@ || k == "lt"@ || k == "lte"@ {
        let v = if k == "min"@ || k == "max"@ || k == "len"@ {
            len
        } else {
            numeric
        };
        match v {
            None => Some(false),
            Some(n) => match exact_threshold(r) {
                Some(t) => if -exact_bound() <= n <= exact_bound() {
                    Some(compare_ok(k, n, t))
                } else {
                    None
                },
                None => None,
            },
        }
    } else if k == "oneof"@ {
        Some(r.args.contains(s))
    } else if k == "email"@ {
        Some(email && scalar::email_spec(s))
    } else {
        Some(false)
    }
}

/// What each comparing rule decides, for a threshold that is an integer a
/// 64-bit float holds exactly and a value in that range: `gte` and `min`
/// accept exactly the values at least the threshold, `lte` and `max` those
/// at most it, `gt` those above it, `lt` those below it, and `len` those
/// equal to it (`min`, `max` and `len` on the value's length, the others on
/// its number). A comparing rule refuses a value that has no length or
/// number to compare.
pub proof fn lemma_comparing_rules(r: RuleView, n: int, t: int, s: Seq<char>, email: bool, other: Option<int>)
    requires
        exact_threshold(r) == Some(t),
        -exact_bound() <= n <= exact_bound(),
    ensures
        r.key == "gte"@ ==> rule_outcome_spec(r, other, Some(n), s, email) == Some(n >= t),
        r.key == "lte"@ ==> rule_outcome_spec(r, other, Some(n), s, email) == Some(n <= t),
        r.key == "gt"@ ==> rule_outcome_spec(r, other, Some(n), s, email) == Some(n > t),
        r.key == "lt"@ ==> rule_outcome_spec(r, other, Some(n), s, email) == Some(n < t),
        r.key == "min"@ ==> rule_outcome_spec(r, Some(n), other, s, email) == Some(n >= t),
        r.key == "max"@ ==> rule_outcome_spec(r, Some(n), other, s, email) == Some(n <= t),
        r.key == "len"@ ==> rule_outcome_spec(r, Some(n), other, s, email) == Some(n == t),
        r.key == "gte"@ || r.key == "lte"@ || r.key == "gt"@ || r.key == "lt"@ ==> rule_outcome_spec(
            r,
            other,
            None,
            s,
            email,
        ) == Some(false),
        r.key == "min"@ || r.key == "max"@ || r.key == "len"@ ==> rule_outcome_spec(r, None, other, s, email)
            == Some(false),
{
    reveal_strlit("min");
    reveal_strlit("max");
    reveal_strlit("len");
    reveal_strlit("gt");
    reveal_strlit("gte");
    reveal_strlit("lt");
    reveal_strlit("lte");
    assert("gt"@[0] != "lt"@[0] && "gte"@[0] != "lte"@[0]);
    assert("min"@[1] != "max"@[1] && "min"@[0] != "len"@[0] && "max"@[0] != "len"@[0]);
    assert("min"@[0] != "gte"@[0] && "min"@[0] != "lte"@[0] && "max"@[0] != "gte"@[0] && "max"@[0] != "lte"@[0]);
    assert("len"@[0] != "gte"@[0] && "len"@[1] != "lte"@[1]);
    assert("gt"@.len() == 2 && "lt"@.len() == 2 && "gte"@.len() == 3 && "lte"@.len() == 3);
    assert("min"@.len() == 3 && "max"@.len() == 3 && "len"@.len() == 3);
}

/// `oneof` accepts exactly the texts among its words, whatever the value's
/// length or number; `email` accepts exactly e-mail shaped texts where
/// e-mail checks apply and nothing where they do not; a rule this
/// validator does not know refuses.
pub proof fn lemma_word_rules(r: RuleView, len: Option<int>, n: Option<int>, s: Seq<char>, email: bool)
    ensures
        r.key == "oneof"@ ==> rule_outcome_spec(r, len, n, s, email) == Some(
            exists|i: int| 0 <= i < r.args.len() && r.args[i] == s,
        ),
        r.key == "email"@ ==> rule_outcome_spec(r, len, n, s, email) == Some(email && scalar::email_spec(s)),
        !supported_rule(r.key) ==> rule_outcome_spec(r, len, n, s, email) == Some(false),
{
    reveal_strlit("min");
    reveal_strlit("max");
    reveal_strlit("len");
    reveal_strlit("gt");
    reveal_strlit("gte");
    reveal_strlit("lt");
    reveal_strlit("lte");
    reveal_strlit("oneof");
    reveal_strlit("email");
    assert("oneof"@.len() == 5 && "email"@.len() == 5 && "oneof"@[0] != "email"@[0]);
    assert("gt"@.len() == 2 && "lt"@.len() == 2 && "gte"@.len() == 3 && "lte"@.len() == 3);
    assert("min"@.len() == 3 && "max"@.len() == 3 && "len"@.len() == 3);
    if r.key == "oneof"@ {
        if r.args.contains(s) {
            let i = choose|i: int| 0 <= i < r.args.len() && r.args[i] == s;
        }
    }
}

/// Decides one rule on a value (see [`rule_outcome_spec`]).
pub fn rule_outcome(r: &VRule, len: Option<u64>, numeric: Option<i64>, s: &str, email: bool) -> (o: Option<bool>)
    ensures
        o == rule_outcome_spec(
            r@,
            match len {
                Some(n) => Some(n as int),
                None => None,
            },
            match numeric {
                Some(n) => Some(n as int),
                None => None,
            },
            s@,
            email,
        ),
{
    let k = r.key.as_str();
    let is_len = text::str_eq(k, "min") || text::str_eq(k, "max") || text::str_eq(k, "len");
    let is_order = text::str_eq(k, "gt") || text::str_eq(k, "gte") || text::str_eq(k, "lt") || text::str_eq(k, "lte");
    if is_len || is_order {
        let v: Option<i128> = if is_len {
            match len {
                Some(n) => Some(n as i128),
                None => None,
            }
        } else {
            match numeric {
                Some(n) => Some(n as i128),
                None => None,
            }
        };
        let n = match v {
            None => {
                return Some(false);
            },
            Some(n) => n,
        };
        let t = match &r.num {
            Some(txt) => match scalar::parse_i64_literal(txt.as_str()) {
                Some(t) => t,
                None => {
                    return None;
                },
            },
            None => {
                return None;
            },
        };
        if t < -0x20_0000_0000_0000 || t > 0x20_0000_0000_0000 {
            return None;
        }
        if n < -0x20_0000_0000_0000 || n > 0x20_0000_0000_0000 {
            return None;
        }
        let t = t as i128;
        let ok = if text::str_eq(k, "min") || text::str_eq(k, "gte") {
            n >= t
        } else if text::str_eq(k, "max") || text::str_eq(k, "lte") {
            n <= t
        } else if text::str_eq(k, "len") {
            n == t
        } else if text::str_eq(k, "gt") {
            n > t
        } else {
            n < t
        };
        return Some(ok);
    }
    if text::str_eq(k, "oneof") {
        return Some(builtins::contains_str(&r.args, s));
    }
    if text::str_eq(k, "email") {
        return Some(email && scalar::email_ok(s));
    }
    Some(false)
}

} // verus!
