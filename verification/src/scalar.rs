//! Scalar conversions: booleans in the usual `1/t/true/0/f/false` set,
//! durations written as signed decimal numbers with units (`1h30m`,
//! `1.5s`, `300ms`) and rendered back in that form, and the e-mail shape
//! check.  Durations are computed in exact integer
//! arithmetic on nanoseconds.
use vstd::prelude::*;
use crate::errors;
use crate::field::{self, FieldKind};
use crate::json::{self, Json, JsonView};
use crate::text;

verus! {

/// The nanoseconds a `std::time::Duration` holds (`Duration::as_nanos`).
pub uninterp spec fn duration_nanos(d: std::time::Duration) -> nat;

/// The duration of `n` nanoseconds (`Duration::from_nanos`).
pub uninterp spec fn nanos_duration(n: u64) -> std::time::Duration;

/// `Duration::from_nanos`: the duration of `n` nanoseconds, whose
/// `as_nanos` is `n`.
#[verifier::external_body]
pub(crate) fn duration_from_nanos(n: u64) -> (d: std::time::Duration)
    ensures
        d == nanos_duration(n),
        duration_nanos(d) == n,
{
    std::time::Duration::from_nanos(n)
}

/// `Duration::as_nanos`: the whole nanoseconds of `d`.
#[verifier::external_body]
pub(crate) fn duration_as_nanos(d: std::time::Duration) -> (n: u128)
    ensures
        n == duration_nanos(d),
{
    d.as_nanos()
}

/// The accepted spellings of a boolean.
pub open spec fn bool_of(s: Seq<char>) -> Option<bool> {
    if s == "1"@ || s == "t"@ || s == "T"@ || s == "true"@ || s == "TRUE"@ || s == "True"@ {
        Some(true)
    } else if s == "0"@ || s == "f"@ || s == "F"@ || s == "false"@ || s == "FALSE"@ || s
        == "False"@ {
        Some(false)
    } else {
        None
    }
}

/// The boolean spellings: `1`, `t`, `T`, `true`, `TRUE` and `True` read
/// as true, `0`, `f`, `F`, `false`, `FALSE` and `False` as false, and no
/// other text is a boolean.
pub proof fn lemma_bool_spellings(s: Seq<char>)
    ensures
        bool_of("1"@) == Some(true),
        bool_of("t"@) == Some(true),
        bool_of("T"@) == Some(true),
        bool_of("true"@) == Some(true),
        bool_of("TRUE"@) == Some(true),
        bool_of("True"@) == Some(true),
        bool_of("0"@) == Some(false),
        bool_of("f"@) == Some(false),
        bool_of("F"@) == Some(false),
        bool_of("false"@) == Some(false),
        bool_of("FALSE"@) == Some(false),
        bool_of("False"@) == Some(false),
        bool_of(s) is Some ==> s == "1"@ || s == "t"@ || s == "T"@ || s == "true"@ || s == "TRUE"@ || s
            == "True"@ || s == "0"@ || s == "f"@ || s == "F"@ || s == "false"@ || s == "FALSE"@ || s == "False"@,
{
    reveal_strlit("1");
    reveal_strlit("t");
    reveal_strlit("T");
    reveal_strlit("true");
    reveal_strlit("TRUE");
    reveal_strlit("True");
    reveal_strlit("0");
    reveal_strlit("f");
    reveal_strlit("F");
    reveal_strlit("false");
    reveal_strlit("FALSE");
    reveal_strlit("False");
    assert("0"@[0] != "1"@[0] && "0"@[0] != "t"@[0] && "0"@[0] != "T"@[0]);
    assert("f"@[0] != "1"@[0] && "f"@[0] != "t"@[0] && "f"@[0] != "T"@[0]);
    assert("F"@[0] != "1"@[0] && "F"@[0] != "t"@[0] && "F"@[0] != "T"@[0]);
    assert("false"@.len() == 5 && "FALSE"@.len() == 5 && "False"@.len() == 5);
    assert("true"@.len() == 4 && "TRUE"@.len() == 4 && "True"@.len() == 4);
    assert("1"@.len() == 1 && "t"@.len() == 1 && "T"@.len() == 1);
}

/// Parses a boolean in the accepted set.
pub fn parse_bool(s: &str) -> (r: Result<bool, String>)
    ensures
        match r {
            Ok(b) => bool_of(s@) == Some(b),
            Err(m) => bool_of(s@) is None && m@ == "expect boolean, got "@ + text::quoted(s@),
        },
{
    if text::str_eq(s, "1") || text::str_eq(s, "t") || text::str_eq(s, "T") || text::str_eq(
        s,
        "true",
    ) || text::str_eq(s, "TRUE") || text::str_eq(s, "True") {
        Ok(true)
    } else if text::str_eq(s, "0") || text::str_eq(s, "f") || text::str_eq(s, "F")
        || text::str_eq(s, "false") || text::str_eq(s, "FALSE") || text::str_eq(s, "False") {
        Ok(false)
    } else {
        let mut m = text::owned("expect boolean, got ");
        let q = text::quote(s);
        text::append(&mut m, q.as_str());
        Err(m)
    }
}

// ---------------------------------------------------------------- durations
/// `10^e`.
pub open spec fn pow10(e: nat) -> nat
    decreases e,
{
    if e == 0 {
        1
    } else {
        10 * pow10((e - 1) as nat)
    }
}

/// The scale of fixed-point duration arithmetic: values are held in units
/// of `10^-18` of their unit.
pub open spec fn scale() -> nat {
    pow10(18)
}

pub open spec fn is_digit(c: char) -> bool {
    '0' <= c && c <= '9'
}

pub open spec fn digit_value(c: char) -> nat {
    ((c as u32) - ('0' as u32)) as nat
}

/// The length of the longest prefix of `s` made of digits and dots.
pub open spec fn numeral_len(s: Seq<char>) -> nat
    decreases s.len(),
{
    if s.len() > 0 && (is_digit(s[0]) || s[0] == '.') {
        1 + numeral_len(s.drop_first())
    } else {
        0
    }
}

/// Scanning a numeral of digits and dots from the left: the value so far
/// scaled by `10^18` (fraction digits past the eighteenth dropped), the
/// number of digits and dots seen, and the fraction digits seen.
pub open spec fn scan_numeral(num: Seq<char>) -> (nat, nat, nat, nat)
    decreases num.len(),
{
    if num.len() == 0 {
        (0, 0, 0, 0)
    } else {
        let (acc, digits, dots, frac) = scan_numeral(num.drop_last());
        let c = num.last();
        if c == '.' {
            (acc, digits, dots + 1, frac)
        } else if dots == 0 {
            (acc * 10 + digit_value(c) * scale(), digits + 1, dots, frac)
        } else if frac < 18 {
            (acc + digit_value(c) * pow10((17 - frac) as nat), digits + 1, dots, frac + 1)
        } else {
            (acc, digits + 1, dots, frac + 1)
        }
    }
}

/// A numeral parses as a decimal number: at least one digit and at most
/// one dot.
pub open spec fn numeral_ok(num: Seq<char>) -> bool {
    scan_numeral(num).1 >= 1 && scan_numeral(num).2 <= 1
}

/// The value of a numeral scaled by `10^18`.
pub open spec fn numeral_scaled(num: Seq<char>) -> nat {
    scan_numeral(num).0
}

/// The unit at the start of `s`: its length in characters, its length in
/// bytes and its size in nanoseconds.  Two-character units are tried
/// first, so `ms` is never read as `m`.
pub open spec fn unit_of(s: Seq<char>) -> Option<(nat, nat, nat)> {
    if text::is_prefix("ns"@, s) {
        Some((2, 2, 1))
    } else if text::is_prefix("us"@, s) {
        Some((2, 2, 1000))
    } else if text::is_prefix(seq!['\u{b5}', 's'], s) {
        Some((2, 3, 1000))
    } else if text::is_prefix(seq!['\u{3bc}', 's'], s) {
        Some((2, 3, 1000))
    } else if text::is_prefix("ms"@, s) {
        Some((2, 2, 1000000))
    } else if text::is_prefix("s"@, s) {
        Some((1, 1, 1000000000))
    } else if text::is_prefix("m"@, s) {
        Some((1, 1, 60000000000))
    } else if text::is_prefix("h"@, s) {
        Some((1, 1, 3600000000000))
    } else {
        None
    }
}

/// Why a duration text was rejected.
#[derive(Debug, Clone, Copy, PartialEq, Eq, Structural)]
pub enum DurationError {
    /// Empty, a bare sign, or a malformed number.
    Syntax,
    /// No number where a segment starts (byte position).
    ExpectedNumber(u64),
    /// No known unit after a number (byte position).
    UnknownUnit(u64),
    /// Negative, or beyond `u64::MAX` nanoseconds.
    OutOfRange,
}

/// The segments `number unit` of `s` (starting at byte position `pos`),
/// summed onto `acc`: each segment adds its scaled number times its unit.
pub open spec fn scan_segments(s: Seq<char>, pos: u64, acc: nat) -> Result<nat, DurationError>
    decreases s.len(),
{
    if s.len() == 0 {
        Ok(acc)
    } else {
        let n = numeral_len(s);
        if n == 0 {
            Err(DurationError::ExpectedNumber(pos))
        } else if !numeral_ok(s.take(n as int)) {
            Err(DurationError::Syntax)
        } else {
            match unit_of(s.skip(n as int)) {
                None => Err(DurationError::UnknownUnit(pos.wrapping_add(n as u64))),
                Some((clen, blen, mult)) => {
                    proof {
                        lemma_numeral_len(s);
                        lemma_unit_len(s.skip(n as int));
                    }
                    scan_segments(
                        s.skip(n as int).skip(clen as int),
                        pos.wrapping_add(n as u64).wrapping_add(blen as u64),
                        acc + numeral_scaled(s.take(n as int)) * mult,
                    )
                },
            }
        }
    }
}

/// The nanoseconds a duration text denotes, rounded half away from zero:
/// an optional sign, then a bare `0` or one or more segments.  A negative
/// duration is rejected unless it rounds to zero.
pub open spec fn duration_spec(s: Seq<char>) -> Result<nat, DurationError> {
    let src = text::trim(s);
    if src.len() == 0 {
        Err(DurationError::Syntax)
    } else {
        let neg = src[0] == '-';
        let signed = src[0] == '-' || src[0] == '+';
        let body = if signed { src.drop_first() } else { src };
        let start: u64 = if signed { 1 } else { 0 };
        if body == "0"@ {
            Ok(0)
        } else if body.len() == 0 {
            Err(DurationError::Syntax)
        } else {
            match scan_segments(body, start, 0) {
                Err(e) => Err(e),
                Ok(total) => {
                    let nanos = (total + scale() / 2) / scale();
                    if neg && nanos > 0 {
                        Err(DurationError::OutOfRange)
                    } else if nanos > u64::MAX {
                        Err(DurationError::OutOfRange)
                    } else if neg {
                        Ok(0)
                    } else {
                        Ok(nanos)
                    }
                },
            }
        }
    }
}

/// The message of a rejected duration text.
pub open spec fn duration_message(s: Seq<char>, e: DurationError) -> Seq<char> {
    match e {
        DurationError::Syntax => "invalid duration "@ + text::quoted(s),
        DurationError::ExpectedNumber(p) => "invalid duration "@ + text::quoted(s)
            + ": expected number at position "@ + text::decimal(p as nat),
        DurationError::UnknownUnit(p) => "invalid duration "@ + text::quoted(s)
            + ": unknown unit at position "@ + text::decimal(p as nat),
        DurationError::OutOfRange => "invalid duration "@ + text::quoted(s)
            + ": out of range (Rust 侧负数 Duration 不支持)"@,
    }
}

proof fn lemma_pow10_pos(e: nat)
    ensures
        pow10(e) >= 1,
    decreases e,
{
    if e > 0 {
        lemma_pow10_pos((e - 1) as nat);
    }
}

fn pow10_of(e: u64) -> (r: u128)
    requires
        e <= 18,
    ensures
        r == pow10(e as nat),
{
    let mut r: u128 = 1;
    let mut i: u64 = 0;
    while i < e
        invariant
            i <= e <= 18,
            r == pow10(i as nat),
            r <= 1_000_000_000_000_000_000u128,
        decreases e - i,
    {
        proof {
            reveal_with_fuel(pow10, 19);
            assert(pow10(i as nat) <= pow10(17)) by {
                lemma_pow10_mono(i as nat, 17);
            }
        }
        r = r * 10;
        i += 1;
    }
    r
}

proof fn lemma_pow10_mono(a: nat, b: nat)
    requires
        a <= b,
    ensures
        pow10(a) <= pow10(b),
    decreases b,
{
    if a < b {
        lemma_pow10_mono(a, (b - 1) as nat);
        lemma_pow10_pos((b - 1) as nat);
    }
}

proof fn lemma_scale_value()
    ensures
        scale() == 1_000_000_000_000_000_000nat,
{
    reveal_with_fuel(pow10, 19);
}

/// The bound past which a scaled total is certainly out of range.
spec fn big() -> nat {
    332_041_393_326_771_929_088_000_000_000_000_000_000nat
}

/// Scans the numeral at `cs[from..to]`: `Some(scaled)` when it is well
/// formed and its scaled value stays below the bound, `None` when it is
/// well formed but past the bound; the boolean reports well-formedness.
fn scan_numeral_exec(cs: &[char], from: usize, to: usize) -> (r: (bool, Option<u128>))
    requires
        from <= to <= cs.len(),
        forall|j: int| from <= j < to ==> (is_digit(#[trigger] cs@[j]) || cs@[j] == '.'),
    ensures
        r.0 == numeral_ok(cs@.subrange(from as int, to as int)),
        match r.1 {
            Some(v) => v == numeral_scaled(cs@.subrange(from as int, to as int)) && v < big(),
            None => numeral_scaled(cs@.subrange(from as int, to as int)) >= big(),
        },
{
    proof {
        lemma_scale_value();
    }
    let mut acc: u128 = 0;
    let mut over = false;
    let mut digits: u64 = 0;
    let mut dots: u64 = 0;
    let mut frac: u64 = 0;
    let mut i = from;
    assert(cs@.subrange(from as int, from as int) == Seq::<char>::empty());
    while i < to
        invariant
            from <= i <= to <= cs.len(),
            forall|j: int| from <= j < to ==> (is_digit(#[trigger] cs@[j]) || cs@[j] == '.'),
            scale() == 1_000_000_000_000_000_000nat,
            digits <= i - from,
            dots <= i - from,
            frac <= i - from,
            ({
                let sc = scan_numeral(cs@.subrange(from as int, i as int));
                &&& sc.1 == digits
                &&& sc.2 == dots
                &&& sc.3 == frac
                &&& (!over ==> sc.0 == acc && acc < big())
                &&& (over ==> sc.0 >= big())
            }),
        decreases to - i,
    {
        let c = cs[i];
        let ghost pre = cs@.subrange(from as int, i as int);
        let ghost nxt = cs@.subrange(from as int, i + 1);
        assert(nxt.drop_last() == pre);
        assert(nxt.last() == c);
        if c == '.' {
            dots += 1;
        } else {
            let d: u128 = ((c as u32) - ('0' as u32)) as u128;
            assert(d == digit_value(c));
            assert(d <= 9);
            if dots == 0 {
                if !over {
                    if acc >= 33_204_139_332_677_192_908_800_000_000_000_000_000u128 {
                        over = true;
                        assert(scan_numeral(nxt).0 >= big());
                    } else {
                        acc = acc * 10 + d * 1_000_000_000_000_000_000u128;
                        if acc >= 332_041_393_326_771_929_088_000_000_000_000_000_000u128 {
                            over = true;
                        }
                    }
                } else {
                    assert(scan_numeral(nxt).0 >= scan_numeral(pre).0 * 10) by (nonlinear_arith)
                        requires
                            scan_numeral(nxt).0 == scan_numeral(pre).0 * 10 + digit_value(c)
                                * scale(),
                            scale() >= 1,
                    ;
                }
            } else if frac < 18 {
                let p = pow10_of(17 - frac);
                proof {
                    lemma_pow10_mono((17 - frac) as nat, 17);
                    reveal_with_fuel(pow10, 18);
                }
                assert(d * p <= 9 * 100_000_000_000_000_000u128) by (nonlinear_arith)
                    requires
                        d <= 9,
                        p <= 100_000_000_000_000_000u128,
                ;
                if !over {
                    acc = acc + d * p;
                    if acc >= 332_041_393_326_771_929_088_000_000_000_000_000_000u128 {
                        over = true;
                    }
                }
                frac += 1;
            } else {
                frac += 1;
            }
            digits += 1;
        }
        i += 1;
    }
    let ok = digits >= 1 && dots <= 1;
    if over {
        (ok, None)
    } else {
        (ok, Some(acc))
    }
}

/// The rendering of an error for the duration text `s`.
fn duration_error_message(s: &str, e: DurationError) -> (m: String)
    ensures
        m@ == duration_message(s@, e),
{
    let mut m = text::owned("invalid duration ");
    let q = text::quote(s);
    text::append(&mut m, q.as_str());
    match e {
        DurationError::Syntax => {},
        DurationError::ExpectedNumber(p) => {
            text::append(&mut m, ": expected number at position ");
            let d = text::decimal_of(p);
            text::append(&mut m, d.as_str());
        },
        DurationError::UnknownUnit(p) => {
            text::append(&mut m, ": unknown unit at position ");
            let d = text::decimal_of(p);
            text::append(&mut m, d.as_str());
        },
        DurationError::OutOfRange => {
            text::append(&mut m, ": out of range (Rust 侧负数 Duration 不支持)");
        },
    }
    m
}

/// The unit at `cs[at..]`, as `unit_of` describes it.
fn unit_at(cs: &[char], at: usize) -> (r: Option<(usize, u64, u128)>)
    requires
        at <= cs.len(),
    ensures
        match r {
            Some((c, b, m)) => unit_of(cs@.skip(at as int)) == Some((c as nat, b as nat, m as nat)),
            None => unit_of(cs@.skip(at as int)) is None,
        },
{
    let rest = text::slice_of(cs, at, cs.len());
    assert(rest@ == cs@.skip(at as int));
    let ns = text::chars_of("ns");
    let us = text::chars_of("us");
    let micro = [ '\u{b5}', 's' ];
    let mu = [ '\u{3bc}', 's' ];
    let ms = text::chars_of("ms");
    let s1 = text::chars_of("s");
    let m1 = text::chars_of("m");
    let h1 = text::chars_of("h");
    assert(micro@ == seq!['\u{b5}', 's']);
    assert(mu@ == seq!['\u{3bc}', 's']);
    if text::starts_with(rest.as_slice(), ns.as_slice()) {
        Some((2, 2, 1))
    } else if text::starts_with(rest.as_slice(), us.as_slice()) {
        Some((2, 2, 1000))
    } else if text::starts_with(rest.as_slice(), &micro) {
        Some((2, 3, 1000))
    } else if text::starts_with(rest.as_slice(), &mu) {
        Some((2, 3, 1000))
    } else if text::starts_with(rest.as_slice(), ms.as_slice()) {
        Some((2, 2, 1000000))
    } else if text::starts_with(rest.as_slice(), s1.as_slice()) {
        Some((1, 1, 1000000000))
    } else if text::starts_with(rest.as_slice(), m1.as_slice()) {
        Some((1, 1, 60000000000))
    } else if text::starts_with(rest.as_slice(), h1.as_slice()) {
        Some((1, 1, 3600000000000))
    } else {
        None
    }
}

pub proof fn lemma_unit_len(s: Seq<char>)
    ensures
        unit_of(s) matches Some((c, b, m)) ==> 1 <= c <= s.len() && 1 <= m <= 3600000000000 && b
            <= 3 && (m == 1 || m == 1000 || m == 1000000 || m == 1000000000 || m == 60000000000
            || m == 3600000000000),
{
    reveal_strlit("ns");
    reveal_strlit("us");
    reveal_strlit("ms");
    reveal_strlit("s");
    reveal_strlit("m");
    reveal_strlit("h");
}

pub proof fn lemma_numeral_len(s: Seq<char>)
    ensures
        numeral_len(s) <= s.len(),
        forall|j: int| 0 <= j < numeral_len(s) ==> (is_digit(#[trigger] s[j]) || s[j] == '.'),
        numeral_len(s) < s.len() ==> !(is_digit(s[numeral_len(s) as int]) || s[numeral_len(
            s,
        ) as int] == '.'),
    decreases s.len(),
{
    if s.len() > 0 && (is_digit(s[0]) || s[0] == '.') {
        lemma_numeral_len(s.drop_first());
        assert forall|j: int| 0 <= j < numeral_len(s) implies (is_digit(#[trigger] s[j]) || s[j]
            == '.') by {
            if j > 0 {
                assert(s[j] == s.drop_first()[j - 1]);
            }
        }
    }
}

proof fn lemma_scan_monotone(s: Seq<char>, pos: u64, acc: nat, total: nat)
    requires
        scan_segments(s, pos, acc) == Ok::<nat, DurationError>(total),
    ensures
        total >= acc,
    decreases s.len(),
{
    if s.len() > 0 {
        let n = numeral_len(s);
        lemma_numeral_len(s);
        match unit_of(s.skip(n as int)) {
            Some((clen, blen, mult)) => {
                lemma_unit_len(s.skip(n as int));
                lemma_scan_monotone(
                    s.skip(n as int).skip(clen as int),
                    pos.wrapping_add(n as u64).wrapping_add(blen as u64),
                    acc + numeral_scaled(s.take(n as int)) * mult,
                    total,
                );
            },
            None => {},
        }
    }
}

/// The nanoseconds of a duration text, or why it was rejected.
fn duration_nanos_of(s: &str) -> (r: Result<u64, DurationError>)
    ensures
        match r {
            Ok(n) => duration_spec(s@) == Ok::<nat, DurationError>(n as nat),
            Err(e) => duration_spec(s@) == Err::<nat, DurationError>(e),
        },
{
    proof {
        lemma_scale_value();
        reveal_strlit("0");
    }
    let src = text::str_trim(s);
    let cs = text::chars_of(src.as_str());
    if cs.len() == 0 {
        return Err(DurationError::Syntax);
    }
    let neg = cs[0] == '-';
    let signed = cs[0] == '-' || cs[0] == '+';
    let mut i: usize = if signed { 1 } else { 0 };
    let mut pos: u64 = if signed { 1 } else { 0 };
    if i == cs.len() {
        assert(cs@.drop_first().len() == 0);
        return Err(DurationError::Syntax);
    }
    let ghost body = if signed { cs@.drop_first() } else { cs@ };
    let ghost start: u64 = if signed { 1 } else { 0 };
    assert(body == cs@.skip(i as int));
    proof {
        reveal_strlit("0");
    }
    if i + 1 == cs.len() && cs[i] == '0' {
        assert(body =~= "0"@);
        return Ok(0);
    }
    assert(body != "0"@);
    let mut total: u128 = 0;
    let mut over = false;
    let ghost mut gacc: nat = 0;
    assert(duration_spec(s@) == (match scan_segments(body, start, 0) {
        Err(e) => Err(e),
        Ok(total) => {
            let nanos = (total + scale() / 2) / scale();
            if neg && nanos > 0 {
                Err(DurationError::OutOfRange)
            } else if nanos > u64::MAX {
                Err(DurationError::OutOfRange)
            } else if neg {
                Ok(0)
            } else {
                Ok(nanos)
            }
        },
    }));
    while i < cs.len()
        invariant
            i <= cs.len(),
            cs@ == text::trim(s@),
            duration_spec(s@) == (match scan_segments(body, start, 0) {
                Err(e) => Err(e),
                Ok(total) => {
                    let nanos = (total + scale() / 2) / scale();
                    if neg && nanos > 0 {
                        Err(DurationError::OutOfRange)
                    } else if nanos > u64::MAX {
                        Err(DurationError::OutOfRange)
                    } else if neg {
                        Ok(0)
                    } else {
                        Ok(nanos)
                    }
                },
            }),
            scan_segments(body, start, 0) == scan_segments(cs@.skip(i as int), pos, gacc),
            !over ==> total == gacc && gacc < big(),
            over ==> gacc >= big(),
        decreases cs.len() - i,
    {
        let ghost rest = cs@.skip(i as int);
        proof {
            lemma_numeral_len(rest);
        }
        let mut j = i;
        while j < cs.len() && (('0' <= cs[j] && cs[j] <= '9') || cs[j] == '.')
            invariant
                i <= j <= cs.len(),
                forall|k: int| i <= k < j ==> (is_digit(#[trigger] cs@[k]) || cs@[k] == '.'),
            decreases cs.len() - j,
        {
            j += 1;
        }
        proof {
            assert(numeral_len(rest) == j - i) by {
                if numeral_len(rest) < j - i {
                    let k = numeral_len(rest) as int;
                    assert(rest[k] == cs@[i + k]);
                }
                if numeral_len(rest) > j - i {
                    let k = j - i;
                    assert(rest[k] == cs@[j as int]);
                }
            }
            assert(rest.take((j - i) as int) == cs@.subrange(i as int, j as int));
            assert(rest.skip((j - i) as int) == cs@.skip(j as int));
        }
        if j == i {
            assert(scan_segments(rest, pos, gacc) == Err::<nat, DurationError>(
                DurationError::ExpectedNumber(pos),
            ));
            return Err(DurationError::ExpectedNumber(pos));
        }
        let (ok, scaled) = scan_numeral_exec(cs.as_slice(), i, j);
        if !ok {
            assert(scan_segments(rest, pos, gacc) == Err::<nat, DurationError>(
                DurationError::Syntax,
            ));
            return Err(DurationError::Syntax);
        }
        let num_bytes = (j - i) as u64;
        let unit = unit_at(cs.as_slice(), j);
        match unit {
            None => {
                assert(scan_segments(rest, pos, gacc) == Err::<nat, DurationError>(
                    DurationError::UnknownUnit(pos.wrapping_add(num_bytes)),
                ));
                return Err(DurationError::UnknownUnit(pos.wrapping_add(num_bytes)));
            },
            Some((clen, blen, mult)) => {
                proof {
                    lemma_unit_len(cs@.skip(j as int));
                    assert(cs@.skip(j as int).skip(clen as int) == cs@.skip(j + clen));
                    if mult == 1 {
                    } else if mult == 1000 {
                        assert(big() % 1000nat == 0);
                    } else if mult == 1000000 {
                        assert(big() % 1000000nat == 0);
                    } else if mult == 1000000000 {
                        assert(big() % 1000000000nat == 0);
                    } else if mult == 60000000000 {
                        assert(big() % 60000000000nat == 0);
                    } else {
                        assert(big() % 3600000000000nat == 0);
                    }
                }
                let ghost term: nat = numeral_scaled(cs@.subrange(i as int, j as int)) * (
                mult as nat);
                match scaled {
                    Some(v) => {
                        if !over {
                            if v >= 332_041_393_326_771_929_088_000_000_000_000_000_000u128 / mult {
                                assert(v * mult >= big()) by (nonlinear_arith)
                                    requires
                                        v >= big() / (mult as nat),
                                        mult >= 1,
                                        big() % (mult as nat) == 0,
                                ;
                                over = true;
                            } else {
                                assert(v * mult < big()) by (nonlinear_arith)
                                    requires
                                        v < big() / (mult as nat),
                                        mult >= 1,
                                ;
                                let add = v * mult;
                                if total >= 332_041_393_326_771_929_088_000_000_000_000_000_000u128 - add {
                                    over = true;
                                } else {
                                    total = total + add;
                                }
                            }
                        }
                    },
                    None => {
                        assert(term >= big()) by (nonlinear_arith)
                            requires
                                numeral_scaled(cs@.subrange(i as int, j as int)) >= big(),
                                mult >= 1,
                                term == numeral_scaled(cs@.subrange(i as int, j as int)) * mult,
                        ;
                        over = true;
                    },
                }
                proof {
                    gacc = gacc + term;
                }
                pos = pos.wrapping_add(num_bytes).wrapping_add(blen);
                i = j + clen;
            },
        }
    }
    proof {
        assert(cs@.skip(i as int).len() == 0);
    }
    if over {
        return Err(DurationError::OutOfRange);
    }
    let nanos: u128 = (total + 500_000_000_000_000_000u128) / 1_000_000_000_000_000_000u128;
    if neg && nanos > 0 {
        return Err(DurationError::OutOfRange);
    }
    if nanos > 18_446_744_073_709_551_615u128 {
        return Err(DurationError::OutOfRange);
    }
    if neg {
        return Ok(0);
    }
    Ok(nanos as u64)
}

/// Parses a duration: an optional sign
/// and one or more `number unit` segments (units ns, us, µs, μs, ms, s, m,
/// h; numbers may carry a fraction).  The value is rounded to whole
/// nanoseconds; negative durations are not representable. The text that
/// [`format_duration`] writes for a duration parses back to it.
pub fn parse_duration(s: &str) -> (r: Result<std::time::Duration, String>)
    ensures
        match r {
            Ok(d) => exists|n: u64| duration_spec(s@) == Ok::<nat, DurationError>(n as nat) && d
                == nanos_duration(n) && duration_nanos(d) == n,
            Err(m) => exists|e: DurationError| duration_spec(s@) == Err::<nat, DurationError>(e)
                && m@ == duration_message(s@, e),
        },
        forall|n: nat|
            n <= u64::MAX && s@ == #[trigger] duration_text(n) ==> (r matches Ok(d) && duration_nanos(d) == n),
{
    proof {
        assert forall|n: nat| n <= u64::MAX && s@ == #[trigger] duration_text(n) implies duration_spec(s@)
            == Ok::<nat, DurationError>(n) by {
            lemma_duration_round_trip(n);
        }
    }
    match duration_nanos_of(s) {
        Ok(n) => Ok(duration_from_nanos(n)),
        Err(e) => Err(duration_error_message(s, e)),
    }
}

/// `n` in units of `unit` (a power of ten with `digits` zeros): the whole
/// units, then the fraction's digits without trailing zeros, with no dot
/// where the fraction is zero.
pub open spec fn frac_text(n: nat, unit: nat, digits: nat) -> Seq<char> {
    if n % unit == 0 {
        text::decimal(n / unit)
    } else {
        text::decimal(n / unit) + "."@ + text::trim_end_char(text::padded(n % unit, digits), '0')
    }
}

/// Seconds with a fraction: `rem` nanoseconds as whole seconds, then the
/// nine-digit fraction without trailing zeros when it is not zero.
pub open spec fn seconds_text(rem: nat) -> Seq<char> {
    frac_text(rem, 1_000_000_000, 9) + "s"@
}

/// The rendering of `n` nanoseconds in the usual duration form: "0s";
/// under a second in the largest of ns, µs and ms that is not above it,
/// with a fraction ("1ns", "1.5µs", "300ms"); from a second on, hours and
/// minutes where there are any, then the seconds ("1.5s", "1m0s",
/// "1h2m3.5s").
pub open spec fn duration_text(n: nat) -> Seq<char> {
    let mins = n / 60_000_000_000;
    let rem = n % 60_000_000_000;
    if n == 0 {
        "0s"@
    } else if n < 1000 {
        text::decimal(n) + "ns"@
    } else if n < 1_000_000 {
        frac_text(n, 1000, 3) + "µs"@
    } else if n < 1_000_000_000 {
        frac_text(n, 1_000_000, 6) + "ms"@
    } else if mins == 0 {
        seconds_text(rem)
    } else if mins < 60 {
        text::decimal(mins) + "m"@ + seconds_text(rem)
    } else {
        text::decimal(mins / 60) + "h"@ + text::decimal(mins % 60) + "m"@ + seconds_text(rem)
    }
}

fn frac_text_of(n: u128, unit: u128, digits: u32) -> (r: String)
    requires
        unit > 0,
    ensures
        r@ == frac_text(n as nat, unit as nat, digits as nat),
{
    let whole = n / unit;
    let frac = n % unit;
    let mut out = text::decimal_of_wide(whole);
    if frac != 0 {
        text::append(&mut out, ".");
        let p = text::padded_of(frac, digits);
        let t = text::trim_end_matches(p.as_str(), '0');
        text::append(&mut out, t.as_str());
    }
    out
}

fn seconds_text_of(rem: u128) -> (r: String)
    ensures
        r@ == seconds_text(rem as nat),
{
    let mut out = frac_text_of(rem, 1_000_000_000, 9);
    text::append(&mut out, "s");
    out
}

/// Renders a duration in the usual duration form ("1ns", "1.5µs",
/// "300ms", "1.5s", "1m0s", "1h2m3.5s"), computed on whole nanoseconds.
pub fn format_duration(d: std::time::Duration) -> (r: String)
    ensures
        r@ == duration_text(duration_nanos(d)),
{
    let n = duration_as_nanos(d);
    if n == 0 {
        return text::owned("0s");
    }
    if n < 1000 {
        let mut out = text::decimal_of_wide(n);
        text::append(&mut out, "ns");
        return out;
    }
    if n < 1_000_000 {
        let mut out = frac_text_of(n, 1000, 3);
        text::append(&mut out, "µs");
        return out;
    }
    if n < 1_000_000_000 {
        let mut out = frac_text_of(n, 1_000_000, 6);
        text::append(&mut out, "ms");
        return out;
    }
    let mins = n / 60_000_000_000;
    let rem = n % 60_000_000_000;
    if mins == 0 {
        return seconds_text_of(rem);
    }
    let mut out = String::new();
    if mins >= 60 {
        let h = text::decimal_of_wide(mins / 60);
        text::append(&mut out, h.as_str());
        text::append(&mut out, "h");
    }
    let m = text::decimal_of_wide(mins % 60);
    text::append(&mut out, m.as_str());
    text::append(&mut out, "m");
    let st = seconds_text_of(rem);
    text::append(&mut out, st.as_str());
    proof {
        assert(mins < 60 ==> mins % 60 == mins);
    }
    out
}

// ------------------------------------------------------------------ e-mail
/// The characters the pattern class `\s` stands for (tab, newline, form
/// feed, carriage return, space).
pub open spec fn pattern_space(c: char) -> bool {
    c == '\t' || c == '\n' || c == '\x0c' || c == '\r' || c == ' '
}

/// The shape `^[^@\s]+@[^@\s]+\.[^@\s]+$`: no `\s` character, exactly one
/// `@` with a non-empty part before it, and after it a dot with at least
/// one character on each side.
pub open spec fn email_spec(s: Seq<char>) -> bool {
    let parts = text::split(s, '@');
    &&& forall|i: int| 0 <= i < s.len() ==> !pattern_space(#[trigger] s[i])
    &&& parts.len() == 2
    &&& parts[0].len() > 0
    &&& exists|d: int| 1 <= d < parts[1].len() - 1 && #[trigger] parts[1][d] == '.'
}

/// Whether `s` has the e-mail shape `^[^@\s]+@[^@\s]+\.[^@\s]+$`.
pub fn email_ok(s: &str) -> (r: bool)
    ensures
        r == email_spec(s@),
{
    let cs = text::chars_of(s);
    let mut i: usize = 0;
    while i < cs.len()
        invariant
            i <= cs.len(),
            cs@ == s@,
            forall|j: int| 0 <= j < i ==> !pattern_space(#[trigger] s@[j]),
        decreases cs.len() - i,
    {
        let c = cs[i];
        if c == '\t' || c == '\n' || c == '\x0c' || c == '\r' || c == ' ' {
            assert(pattern_space(s@[i as int]));
            return false;
        }
        i += 1;
    }
    let parts = text::split_chars(cs.as_slice(), '@');
    if parts.len() != 2 {
        return false;
    }
    if parts[0].len() == 0 {
        return false;
    }
    let rest = &parts[1];
    let ghost r = text::split(s@, '@')[1];
    assert(rest@ == r);
    if rest.len() < 3 {
        return false;
    }
    let ghost pre = (forall|i: int| 0 <= i < s@.len() ==> !pattern_space(#[trigger] s@[i]))
        && text::split(s@, '@').len() == 2 && text::split(s@, '@')[0].len() > 0;
    assert(pre);
    let mut d: usize = 1;
    while d + 1 < rest.len()
        invariant
            1 <= d,
            d + 1 <= rest.len() || d == 1,
            rest@ == r,
            rest.len() >= 3,
            pre,
            pre == ((forall|i: int| 0 <= i < s@.len() ==> !pattern_space(#[trigger] s@[i]))
                && text::split(s@, '@').len() == 2 && text::split(s@, '@')[0].len() > 0),
            r == text::split(s@, '@')[1],
            forall|k: int| 1 <= k < d ==> r[k] != '.',
        decreases rest.len() - d,
    {
        if rest[d] == '.' {
            assert(r[d as int] == '.');
            return true;
        }
        d += 1;
    }
    assert(!(exists|k: int| 1 <= k < r.len() - 1 && #[trigger] r[k] == '.'));
    false
}

// ---------------------------------------------------------------- literals
/// The value of a run of decimal digits.
pub open spec fn digits_value(d: Seq<char>) -> nat
    decreases d.len(),
{
    if d.len() == 0 {
        0
    } else {
        digits_value(d.drop_last()) * 10 + digit_value(d.last())
    }
}

/// The value of a run of digits after a sign: `None` where the run is
/// empty or holds something other than an ASCII digit.
pub open spec fn signed_digits(neg: bool, d: Seq<char>) -> Option<int> {
    if d.len() == 0 || !(forall|i: int| 0 <= i < d.len() ==> is_digit(#[trigger] d[i])) {
        None
    } else if neg {
        Some(-(digits_value(d) as int))
    } else {
        Some(digits_value(d) as int)
    }
}

/// An integer written as `str::parse` reads one: an optional `+` (or `-`
/// where `signed`), then one or more ASCII digits.
pub open spec fn integer_text(t: Seq<char>, signed: bool) -> Option<int> {
    if t.len() == 0 {
        None
    } else {
        let neg = t[0] == '-' && signed;
        signed_digits(
            neg,
            if t[0] == '+' || neg {
                t.drop_first()
            } else {
                t
            },
        )
    }
}

/// The 64-bit integer a text holds once trimmed (`None` where it holds
/// none, or one out of range).
pub open spec fn i64_literal(s: Seq<char>) -> Option<int> {
    match integer_text(text::trim(s), true) {
        Some(v) => if i64::MIN <= v <= i64::MAX {
            Some(v)
        } else {
            None
        },
        None => None,
    }
}

/// The unsigned 64-bit integer a text holds once trimmed.
pub open spec fn u64_literal(s: Seq<char>) -> Option<int> {
    match integer_text(text::trim(s), false) {
        Some(v) => if 0 <= v <= u64::MAX {
            Some(v)
        } else {
            None
        },
        None => None,
    }
}

proof fn lemma_digits_grow(d: Seq<char>, i: int)
    requires
        0 <= i < d.len(),
    ensures
        digits_value(d.take(i + 1)) == digits_value(d.take(i)) * 10 + digit_value(d[i]),
        digits_value(d.take(i + 1)) >= digits_value(d.take(i)),
{
    assert(d.take(i + 1).drop_last() == d.take(i));
}

/// Reads the sign and magnitude of an integer text (trimmed); `None` where
/// the text is not of that form or its magnitude passes `2^64`.
fn scan_integer(s: &str, signed: bool) -> (r: Option<(bool, u128)>)
    ensures
        match integer_text(text::trim(s@), signed) {
            None => r is None,
            Some(v) => if -0x1_0000_0000_0000_0000 <= v <= 0x1_0000_0000_0000_0000 {
                r matches Some((neg, m)) && (if neg { -(m as int) } else { m as int }) == v
                    && m <= 0x1_0000_0000_0000_0000
            } else {
                r is None
            },
        },
{
    let t0 = text::str_trim(s);
    let t = text::chars_of(t0.as_str());
    if t.len() == 0 {
        return None;
    }
    let neg = t[0] == '-' && signed;
    let start: usize = if t[0] == '+' || neg {
        1
    } else {
        0
    };
    let ghost d = if t@[0] == '+' || neg {
        t@.drop_first()
    } else {
        t@
    };
    assert(d =~= t@.subrange(start as int, t@.len() as int));
    assert(integer_text(text::trim(s@), signed) == signed_digits(neg, d));
    if start >= t.len() {
        return None;
    }
    let mut acc: u128 = 0;
    let mut over = false;
    let mut i: usize = start;
    assert(d.take(0) =~= Seq::<char>::empty());
    while i < t.len()
        invariant
            start <= i <= t.len(),
            integer_text(text::trim(s@), signed) == signed_digits(neg, d),
            d =~= t@.subrange(start as int, t@.len() as int),
            forall|j: int| 0 <= j < i - start ==> is_digit(#[trigger] d[j]),
            !over ==> acc == digits_value(d.take(i - start)) && acc <= 0x1_0000_0000_0000_0000,
            over ==> digits_value(d.take(i - start)) > 0x1_0000_0000_0000_0000,
        decreases t.len() - i,
    {
        let c = t[i];
        let ghost k = i - start;
        assert(d[k] == c);
        if !('0' <= c && c <= '9') {
            assert(!is_digit(d[k]));
            assert(signed_digits(neg, d) is None);
            return None;
        }
        proof {
            lemma_digits_grow(d, k);
        }
        if !over {
            let dv: u128 = ((c as u32) - ('0' as u32)) as u128;
            assert(dv == digit_value(c));
            let next = acc * 10 + dv;
            if next > 0x1_0000_0000_0000_0000 {
                over = true;
            } else {
                acc = next;
            }
        }
        i += 1;
    }
    assert(d.take(d.len() as int) == d);
    if over {
        return None;
    }
    Some((neg, acc))
}

/// Reads a signed 64-bit integer as `str::parse::<i64>` reads the trimmed
/// text.
pub fn parse_i64_literal(s: &str) -> (r: Option<i64>)
    ensures
        match i64_literal(s@) {
            Some(v) => r == Some(v as i64),
            None => r is None,
        },
{
    match scan_integer(s, true) {
        None => None,
        Some((neg, m)) => {
            if neg {
                if m > 0x8000_0000_0000_0000 {
                    None
                } else {
                    Some((0i128 - (m as i128)) as i64)
                }
            } else if m > 0x7fff_ffff_ffff_ffff {
                None
            } else {
                Some(m as i64)
            }
        },
    }
}

/// Reads an unsigned 64-bit integer as `str::parse::<u64>` reads the
/// trimmed text.
pub fn parse_u64_literal(s: &str) -> (r: Option<u64>)
    ensures
        match u64_literal(s@) {
            Some(v) => r == Some(v as u64),
            None => r is None,
        },
{
    match scan_integer(s, false) {
        None => None,
        Some((neg, m)) => {
            if m > 0xffff_ffff_ffff_ffff {
                None
            } else {
                Some(m as u64)
            }
        },
    }
}


/// The reading of a floating-point literal, which the library does not
/// compute itself: `text` read as a 64-bit float (narrowed to 32 bits
/// where `single`) and written as a JSON number, or `None` where that
/// reading fails or is not finite.
#[derive(Debug)]
pub struct FloatReading {
    pub text: String,
    pub single: bool,
    pub number: Option<String>,
}

/// The JSON number of the first reading of `s` (for the given width) from
/// the `i`-th on; `None` where there is none, or it failed.
pub open spec fn reading_from(rs: Seq<FloatReading>, s: Seq<char>, single: bool, i: int) -> Option<Seq<char>>
    decreases rs.len() - i,
{
    if i < 0 || i >= rs.len() {
        None
    } else if rs[i].text@ == s && rs[i].single == single {
        match rs[i].number {
            Some(t) => Some(t@),
            None => None,
        }
    } else {
        reading_from(rs, s, single, i + 1)
    }
}

/// The shapes read as signed integers.
pub open spec fn signed_kind(k: FieldKind) -> bool {
    k == FieldKind::I8 || k == FieldKind::I16 || k == FieldKind::I32 || k == FieldKind::I64
}

/// The shapes read as unsigned integers.
pub open spec fn unsigned_kind(k: FieldKind) -> bool {
    k == FieldKind::U8 || k == FieldKind::U16 || k == FieldKind::U32 || k == FieldKind::U64
}

/// The value of a scalar literal of shape `kind`, or why it is refused:
/// a string as written, a boolean of the accepted set, an integer (trimmed)
/// that fits the shape, a float by its reading; other shapes have no
/// literal.
pub open spec fn literal_spec(kind: FieldKind, s: Seq<char>, rs: Seq<FloatReading>) -> Result<JsonView, Seq<char>> {
    if kind == FieldKind::String {
        Ok(JsonView::Str(s))
    } else if kind == FieldKind::Bool {
        match bool_of(s) {
            Some(b) => Ok(JsonView::Bool(b)),
            None => Err("expect boolean, got "@ + text::quoted(s)),
        }
    } else if signed_kind(kind) {
        match i64_literal(s) {
            None => Err("expect integer, got "@ + text::quoted(s)),
            Some(v) => if field::fits_int(kind, v) {
                Ok(JsonView::Number(field::signed_decimal(v)))
            } else {
                Err(field::overflow_message(v, kind))
            },
        }
    } else if unsigned_kind(kind) {
        match u64_literal(s) {
            None => Err("expect unsigned integer, got "@ + text::quoted(s)),
            Some(v) => if field::fits_uint(kind, v) {
                Ok(JsonView::Number(field::signed_decimal(v)))
            } else {
                Err(field::overflow_message(v, kind))
            },
        }
    } else if kind == FieldKind::F32 || kind == FieldKind::F64 {
        match reading_from(rs, s, kind == FieldKind::F32, 0) {
            Some(t) => Ok(JsonView::Number(t)),
            None => Err("expect number, got "@ + text::quoted(s)),
        }
    } else {
        Err("unsupported scalar kind "@ + field::kind_debug(kind) + " for literal "@ + text::quoted(s))
    }
}

fn float_reading(rs: &Vec<FloatReading>, s: &str, single: bool) -> (r: Option<String>)
    ensures
        match reading_from(rs@, s@, single, 0) {
            Some(t) => r matches Some(x) && x@ == t,
            None => r is None,
        },
{
    let mut i: usize = 0;
    while i < rs.len()
        invariant
            i <= rs.len(),
            reading_from(rs@, s@, single, 0) == reading_from(rs@, s@, single, i as int),
        decreases rs.len() - i,
    {
        if text::str_eq(rs[i].text.as_str(), s) && rs[i].single == single {
            return match &rs[i].number {
                Some(t) => Some(text::owned(t.as_str())),
                None => None,
            };
        }
        i += 1;
    }
    None
}

fn signed_text(v: i64) -> (r: String)
    ensures
        r@ == field::signed_decimal(v as int),
{
    if v < 0 {
        let mut d = text::owned("-");
        let a: u128 = (0i128 - (v as i128)) as u128;
        let t = text::decimal_of_wide(a);
        text::append(&mut d, t.as_str());
        proof {
            reveal_strlit("-");
        }
        d
    } else {
        text::decimal_of(v as u64)
    }
}

fn literal_error(prefix: &str, s: &str) -> (e: errors::Error)
    requires
        prefix@.len() > 0,
    ensures
        e.text_spec() == prefix@ + text::quoted(s@),
        e.kind_spec() == errors::Kind::Internal && e.class_spec() == errors::Kind::Internal,
{
    let mut m = text::owned(prefix);
    let q = text::quote(s);
    text::append(&mut m, q.as_str());
    errors::new(errors::Kind::Internal, m)
}

/// Reads a scalar literal of shape `kind` (a `default` or `enum` entry):
/// floats come from `readings`, everything else is read here.
pub fn parse_scalar_literal(kind: FieldKind, s: &str, readings: &Vec<FloatReading>) -> (r: Result<Json, errors::Error>)
    ensures
        match literal_spec(kind, s@, readings@) {
            Ok(j) => r matches Ok(x) && json::json_view(x) == j,
            Err(m) => r matches Err(e) && e.text_spec() == m && e.kind_spec() == errors::Kind::Internal && e.class_spec() == errors::Kind::Internal,
        },
{
    proof {
        reveal_strlit("expect boolean, got ");
        reveal_strlit("expect integer, got ");
        reveal_strlit("expect unsigned integer, got ");
        reveal_strlit("expect number, got ");
        reveal_strlit("unsupported scalar kind ");
    }
    match kind {
        FieldKind::String => Ok(Json::Str(text::owned(s))),
        FieldKind::Bool => match parse_bool(s) {
            Ok(b) => Ok(Json::Bool(b)),
            Err(_) => Err(literal_error("expect boolean, got ", s)),
        },
        FieldKind::I8 | FieldKind::I16 | FieldKind::I32 | FieldKind::I64 => match parse_i64_literal(s) {
            None => Err(literal_error("expect integer, got ", s)),
            Some(v) => match field::check_int_width(kind, v) {
                Err(e) => Err(e),
                Ok(()) => Ok(Json::Number(signed_text(v))),
            },
        },
        FieldKind::U8 | FieldKind::U16 | FieldKind::U32 | FieldKind::U64 => match parse_u64_literal(s) {
            None => Err(literal_error("expect unsigned integer, got ", s)),
            Some(v) => match field::check_uint_width(kind, v) {
                Err(e) => Err(e),
                Ok(()) => Ok(Json::Number(text::decimal_of(v))),
            },
        },
        FieldKind::F32 | FieldKind::F64 => {
            let single = match kind {
                FieldKind::F32 => true,
                _ => false,
            };
            match float_reading(readings, s, single) {
                Some(t) => Ok(Json::Number(t)),
                None => Err(literal_error("expect number, got ", s)),
            }
        },
        _ => {
            let mut m = text::owned("unsupported scalar kind ");
            text::append(&mut m, kind.debug_name());
            text::append(&mut m, " for literal ");
            let q = text::quote(s);
            text::append(&mut m, q.as_str());
            Err(errors::new(errors::Kind::Internal, m))
        },
    }
}


// ---------------------------------------------------------------- date-times
/// The message with which `chrono::DateTime::parse_from_rfc3339` refuses a
/// text (`None` where it reads an RFC 3339 date-time).
pub uninterp spec fn rfc3339_refusal(s: Seq<char>) -> Option<Seq<char>>;

/// `chrono::DateTime::parse_from_rfc3339`: `None` where the text is an
/// RFC 3339 date-time, else the parser's message for it.
#[verifier::external_body]
fn rfc3339_check(s: &str) -> (r: Option<String>)
    ensures
        match rfc3339_refusal(s@) {
            Some(t) => r matches Some(x) && x@ == t,
            None => r is None,
        },
{
    chrono::DateTime::parse_from_rfc3339(s).err().map(|e| e.to_string())
}

/// The message of a text that is not an RFC 3339 date-time.
pub open spec fn datetime_message(s: Seq<char>, t: Seq<char>) -> Seq<char> {
    "expect RFC3339 string, got "@ + text::quoted(s) + ": "@ + t
}

/// Checks that a text is an RFC 3339 date-time (as the `Time` shape
/// takes one), with the message of a refusal.
pub fn parse_datetime(s: &str) -> (r: Result<(), String>)
    ensures
        match rfc3339_refusal(s@) {
            None => r is Ok,
            Some(t) => r matches Err(m) && m@ == datetime_message(s@, t),
        },
{
    match rfc3339_check(s) {
        None => Ok(()),
        Some(t) => {
            let mut m = text::owned("expect RFC3339 string, got ");
            let q = text::quote(s);
            text::append(&mut m, q.as_str());
            text::append(&mut m, ": ");
            text::append(&mut m, t.as_str());
            Err(m)
        },
    }
}


// ---------------------------------------------------------------- duration round trip
/// Whether every character of `s` is a digit or a dot.
pub open spec fn numeral_chars(s: Seq<char>) -> bool {
    forall|i: int| 0 <= i < s.len() ==> (is_digit(#[trigger] s[i]) || s[i] == '.')
}

/// The value of fraction digits, each in units of `10^-18`: the first
/// digit counts `10^17`, the next `10^16`, and so on.
pub open spec fn frac_value(g: Seq<char>) -> nat
    decreases g.len(),
{
    if g.len() == 0 {
        0
    } else {
        frac_value(g.drop_last()) + digit_value(g.last()) * pow10((17 - (g.len() - 1)) as nat)
    }
}

proof fn lemma_digit_char(d: nat)
    requires
        d < 10,
    ensures
        is_digit(text::digit_char(d)),
        digit_value(text::digit_char(d)) == d,
{
}

proof fn lemma_decimal_scan(x: nat)
    ensures
        decimal_ok(text::decimal(x)),
        scan_numeral(text::decimal(x)) == (x * scale(), text::decimal(x).len(), 0nat, 0nat),
    decreases x,
{
    let d = text::decimal(x);
    assert(scan_numeral(Seq::<char>::empty()) == (0nat, 0nat, 0nat, 0nat));
    if x < 10 {
        lemma_digit_char(x);
        assert(d.drop_last() =~= Seq::<char>::empty());
        assert(d[0] == text::digit_char(x));
        assert(d.last() == text::digit_char(x));
        assert(text::digit_char(x) != '.');
        assert(scan_numeral(d) == (x * scale(), 1nat, 0nat, 0nat));
    } else {
        lemma_decimal_scan(x / 10);
        lemma_digit_char(x % 10);
        let p = text::decimal(x / 10);
        assert(d.drop_last() =~= p);
        assert(d.last() == text::digit_char(x % 10));
        assert(text::digit_char(x % 10) != '.');
        assert(scan_numeral(d.drop_last()) == scan_numeral(p));
        let sc = scale();
        assert((x / 10) * sc * 10 + (x % 10) * sc == x * sc) by (nonlinear_arith)
            requires
                x == (x / 10) * 10 + x % 10,
        ;
        assert forall|i: int| 0 <= i < d.len() implies is_digit(#[trigger] d[i]) by {
            if i < p.len() {
                assert(d[i] == p[i]);
            }
        }
    }
}

/// A run of one or more digits.
pub open spec fn decimal_ok(d: Seq<char>) -> bool {
    d.len() >= 1 && forall|i: int| 0 <= i < d.len() ==> is_digit(#[trigger] d[i])
}

proof fn lemma_scan_frac(base: Seq<char>, g: Seq<char>, a: nat, n: nat)
    requires
        scan_numeral(base) == (a, n, 1nat, 0nat),
        g.len() <= 18,
        forall|i: int| 0 <= i < g.len() ==> is_digit(#[trigger] g[i]),
    ensures
        scan_numeral(base + g) == (a + frac_value(g), n + g.len(), 1nat, g.len()),
    decreases g.len(),
{
    if g.len() == 0 {
        assert(base + g =~= base);
    } else {
        lemma_scan_frac(base, g.drop_last(), a, n);
        assert((base + g).drop_last() =~= base + g.drop_last());
        assert((base + g).last() == g.last());
        assert(is_digit(g[g.len() - 1]));
    }
}

proof fn lemma_padded_value(f: nat, d: nat)
    requires
        d <= 18,
        f < pow10(d),
    ensures
        text::padded(f, d).len() == d,
        forall|i: int| 0 <= i < d ==> is_digit(#[trigger] text::padded(f, d)[i]),
        frac_value(text::padded(f, d)) == f * pow10((18 - d) as nat),
    decreases d,
{
    let p = text::padded(f, d);
    assert(frac_value(Seq::<char>::empty()) == 0);
    if d == 0 {
        assert(pow10(0) == 1);
        assert(f == 0);
        assert(p =~= Seq::<char>::empty());
        assert(frac_value(p) == 0);
        assert(f * pow10((18 - d) as nat) == 0) by (nonlinear_arith)
            requires
                f == 0,
        ;
    } else {
        let q = pow10((d - 1) as nat);
        assert(pow10(d) == 10 * q);
        assert(f / 10 < q) by (nonlinear_arith)
            requires
                f < 10 * q,
        ;
        lemma_padded_value(f / 10, (d - 1) as nat);
        lemma_digit_char(f % 10);
        let r = text::padded(f / 10, (d - 1) as nat);
        assert(p.drop_last() =~= r);
        assert(p.last() == text::digit_char(f % 10));
        let e = pow10((18 - d) as nat);
        assert(pow10((18 - (d - 1)) as nat) == 10 * e);
        assert(p.len() == d);
        assert((17 - (p.len() - 1)) as nat == (18 - d) as nat);
        assert(frac_value(p.drop_last()) == frac_value(r));
        assert(frac_value(r) == (f / 10) * (10 * e));
        assert(frac_value(p) == frac_value(r) + (f % 10) * e);
        assert((f / 10) * (10 * e) + (f % 10) * e == f * e) by (nonlinear_arith)
            requires
                f == (f / 10) * 10 + f % 10,
        ;
        assert forall|i: int| 0 <= i < d implies is_digit(#[trigger] p[i]) by {
            if i < d - 1 {
                assert(p[i] == r[i]);
            }
        }
    }
}

proof fn lemma_trim_zeros(s: Seq<char>)
    requires
        forall|i: int| 0 <= i < s.len() ==> is_digit(#[trigger] s[i]),
    ensures
        text::trim_end_char(s, '0').len() <= s.len(),
        text::trim_end_char(s, '0') == s.take(text::trim_end_char(s, '0').len() as int),
        frac_value(text::trim_end_char(s, '0')) == frac_value(s),
    decreases s.len(),
{
    if s.len() > 0 && s.last() == '0' {
        lemma_trim_zeros(s.drop_last());
        let t = text::trim_end_char(s.drop_last(), '0');
        assert(s.drop_last().take(t.len() as int) =~= s.take(t.len() as int));
        assert(digit_value('0') == 0);
    } else {
        assert(s.take(s.len() as int) =~= s);
    }
}


proof fn lemma_frac_numeral(x: nat, u: nat, d: nat)
    requires
        1 <= d <= 9,
        u == pow10(d),
    ensures
        numeral_chars(frac_text(x, u, d)),
        frac_text(x, u, d).len() >= 1,
        is_digit(frac_text(x, u, d)[0]),
        numeral_ok(frac_text(x, u, d)),
        numeral_scaled(frac_text(x, u, d)) == (x / u) * scale() + (x % u) * pow10((18 - d) as nat),
{
    lemma_pow10_pos(d);
    let w = x / u;
    let f = x % u;
    let dd = text::decimal(w);
    lemma_decimal_scan(w);
    let n = frac_text(x, u, d);
    if f == 0 {
        assert(n == dd);
        assert(f * pow10((18 - d) as nat) == 0) by (nonlinear_arith)
            requires
                f == 0,
        ;
    } else {
        reveal_strlit(".");
        let dot = dd + "."@;
        assert(dot.drop_last() =~= dd);
        assert(dot.last() == '.');
        assert(scan_numeral(dot) == (w * scale(), dd.len(), 1nat, 0nat));
        lemma_padded_value(f, d);
        let pd = text::padded(f, d);
        lemma_trim_zeros(pd);
        let g = text::trim_end_char(pd, '0');
        assert forall|i: int| 0 <= i < g.len() implies is_digit(#[trigger] g[i]) by {
            assert(g[i] == pd[i]);
        }
        lemma_scan_frac(dot, g, w * scale(), dd.len());
        assert(n =~= dot + g);
        assert forall|i: int| 0 <= i < n.len() implies (is_digit(#[trigger] n[i]) || n[i] == '.') by {
            if i < dd.len() {
                assert(n[i] == dd[i]);
            } else if i == dd.len() {
                assert(n[i] == '.');
            } else {
                assert(n[i] == g[i - dd.len() - 1]);
            }
        }
        assert(n[0] == dd[0]);
    }
}

proof fn lemma_numeral_len_of(num: Seq<char>, rest: Seq<char>)
    requires
        numeral_chars(num),
        rest.len() >= 1,
        !(is_digit(rest[0]) || rest[0] == '.'),
    ensures
        numeral_len(num + rest) == num.len(),
    decreases num.len(),
{
    if num.len() == 0 {
        assert(num + rest =~= rest);
    } else {
        assert((num + rest).drop_first() =~= num.drop_first() + rest);
        assert((num + rest)[0] == num[0]);
        assert(numeral_chars(num.drop_first())) by {
            assert forall|i: int| 0 <= i < num.drop_first().len() implies (is_digit(
                #[trigger] num.drop_first()[i],
            ) || num.drop_first()[i] == '.') by {
                assert(num.drop_first()[i] == num[i + 1]);
            }
        }
        lemma_numeral_len_of(num.drop_first(), rest);
    }
}

/// What follows a unit in a rendered duration: nothing, or the next
/// segment's first digit.
pub open spec fn next_ok(r: Seq<char>) -> bool {
    r.len() == 0 || is_digit(r[0])
}

proof fn lemma_units(r: Seq<char>)
    requires
        next_ok(r),
    ensures
        unit_of("ns"@ + r) == Some((2nat, 2nat, 1nat)),
        unit_of("µs"@ + r) == Some((2nat, 3nat, 1000nat)),
        unit_of("ms"@ + r) == Some((2nat, 2nat, 1000000nat)),
        unit_of("s"@ + r) == Some((1nat, 1nat, 1000000000nat)),
        unit_of("m"@ + r) == Some((1nat, 1nat, 60000000000nat)),
        unit_of("h"@ + r) == Some((1nat, 1nat, 3600000000000nat)),
{
    reveal_strlit("ns");
    reveal_strlit("us");
    reveal_strlit("µs");
    reveal_strlit("ms");
    reveal_strlit("s");
    reveal_strlit("m");
    reveal_strlit("h");
    let a = "ns"@ + r;
    assert(a.subrange(0, 2) =~= "ns"@);
    let b = "µs"@ + r;
    assert(b.subrange(0, 2) =~= seq!['\u{b5}', 's']);
    assert(b.subrange(0, 2)[0] != "ns"@[0]);
    assert(b.subrange(0, 2)[0] != "us"@[0]);
    let c = "ms"@ + r;
    assert(c.subrange(0, 2) =~= "ms"@);
    assert(c.subrange(0, 2)[0] != "ns"@[0]);
    assert(c.subrange(0, 2)[0] != "us"@[0]);
    assert(c.subrange(0, 2)[0] != seq!['\u{b5}', 's'][0]);
    assert(c.subrange(0, 2)[0] != seq!['\u{3bc}', 's'][0]);
    let e = "s"@ + r;
    assert(e.subrange(0, 1) =~= "s"@);
    if e.len() >= 2 {
        assert(e.subrange(0, 2)[0] != "ns"@[0]);
        assert(e.subrange(0, 2)[0] != "us"@[0]);
        assert(e.subrange(0, 2)[0] != seq!['\u{b5}', 's'][0]);
        assert(e.subrange(0, 2)[0] != seq!['\u{3bc}', 's'][0]);
        assert(e.subrange(0, 2)[0] != "ms"@[0]);
    }
    let m = "m"@ + r;
    assert(m.subrange(0, 1) =~= "m"@);
    if m.len() >= 2 {
        assert(m.subrange(0, 2)[0] != "ns"@[0]);
        assert(m.subrange(0, 2)[0] != "us"@[0]);
        assert(m.subrange(0, 2)[0] != seq!['\u{b5}', 's'][0]);
        assert(m.subrange(0, 2)[0] != seq!['\u{3bc}', 's'][0]);
        assert(m.subrange(0, 2)[1] == r[0]);
        assert(m.subrange(0, 2)[1] != "ms"@[1]);
    }
    assert(m.subrange(0, 1)[0] != "s"@[0]);
    let h = "h"@ + r;
    assert(h.subrange(0, 1) =~= "h"@);
    if h.len() >= 2 {
        assert(h.subrange(0, 2)[0] != "ns"@[0]);
        assert(h.subrange(0, 2)[0] != "us"@[0]);
        assert(h.subrange(0, 2)[0] != seq!['\u{b5}', 's'][0]);
        assert(h.subrange(0, 2)[0] != seq!['\u{3bc}', 's'][0]);
        assert(h.subrange(0, 2)[0] != "ms"@[0]);
    }
    assert(h.subrange(0, 1)[0] != "s"@[0]);
    assert(h.subrange(0, 1)[0] != "m"@[0]);
}


proof fn lemma_segment(
    num: Seq<char>,
    u: Seq<char>,
    r: Seq<char>,
    pos: u64,
    acc: nat,
    clen: nat,
    blen: nat,
    mult: nat,
)
    requires
        numeral_chars(num),
        num.len() >= 1,
        numeral_ok(num),
        u.len() == clen,
        clen >= 1,
        !(is_digit(u[0]) || u[0] == '.'),
        unit_of(u + r) == Some((clen, blen, mult)),
    ensures
        scan_segments(num + u + r, pos, acc) == scan_segments(
            r,
            pos.wrapping_add(num.len() as u64).wrapping_add(blen as u64),
            acc + numeral_scaled(num) * mult,
        ),
{
    let s = num + u + r;
    assert(s =~= num + (u + r));
    assert((u + r)[0] == u[0]);
    lemma_numeral_len_of(num, u + r);
    assert(s.take(num.len() as int) =~= num);
    assert(s.skip(num.len() as int) =~= u + r);
    assert((u + r).skip(clen as int) =~= r);
}

/// A rendered duration's text has no surrounding whitespace.
proof fn lemma_trim_rendered(t: Seq<char>)
    requires
        t.len() >= 1,
        is_digit(t[0]),
        t.last() == 's',
    ensures
        text::trim(t) == t,
{
    assert(!text::is_ws(t[0]));
    assert(text::trim_start(t) == t);
    assert(!text::is_ws(t.last()));
}

proof fn lemma_round_zero(n: nat)
    requires
        n == 0,
    ensures
        scan_segments(duration_text(n), 0, 0) == Ok::<nat, DurationError>(n * scale()),
        duration_text(n).len() >= 1,
        is_digit(duration_text(n)[0]),
        duration_text(n).last() == 's',
{
    reveal_with_fuel(pow10, 19);
    lemma_scale_value();
    reveal_strlit("s");
    let sc = scale();
    let t = duration_text(n);
    let e = Seq::<char>::empty();
    assert(scan_segments(e, 0, 0) == Ok::<nat, DurationError>(0));
    lemma_units(e);
    reveal_strlit("0s");
    lemma_decimal_scan(0);
    assert(text::decimal(0) =~= seq!['0']);
    assert(t =~= text::decimal(0) + "s"@ + e);
    lemma_segment(text::decimal(0), "s"@, e, 0, 0, 1, 1, 1000000000);
    assert(0 * sc == 0);
}

proof fn lemma_round_ns(n: nat)
    requires
        0 < n < 1000,
    ensures
        scan_segments(duration_text(n), 0, 0) == Ok::<nat, DurationError>(n * scale()),
        duration_text(n).len() >= 1,
        is_digit(duration_text(n)[0]),
        duration_text(n).last() == 's',
{
    reveal_with_fuel(pow10, 19);
    lemma_scale_value();
    reveal_strlit("s");
    let sc = scale();
    let t = duration_text(n);
    let e = Seq::<char>::empty();
    assert(scan_segments(e, 0, 0) == Ok::<nat, DurationError>(0));
    lemma_units(e);
    reveal_strlit("ns");
    lemma_decimal_scan(n);
    let d = text::decimal(n);
    assert(t =~= d + "ns"@ + e);
    lemma_segment(d, "ns"@, e, 0, 0, 2, 2, 1);
    assert(t[0] == d[0]);
}

proof fn lemma_round_us(n: nat)
    requires
        1000 <= n < 1_000_000,
    ensures
        scan_segments(duration_text(n), 0, 0) == Ok::<nat, DurationError>(n * scale()),
        duration_text(n).len() >= 1,
        is_digit(duration_text(n)[0]),
        duration_text(n).last() == 's',
{
    reveal_with_fuel(pow10, 19);
    lemma_scale_value();
    reveal_strlit("s");
    let sc = scale();
    let t = duration_text(n);
    let e = Seq::<char>::empty();
    assert(scan_segments(e, 0, 0) == Ok::<nat, DurationError>(0));
    lemma_units(e);
    reveal_strlit("µs");
    lemma_frac_numeral(n, 1000, 3);
    let d = frac_text(n, 1000, 3);
    assert(t =~= d + "µs"@ + e);
    lemma_segment(d, "µs"@, e, 0, 0, 2, 3, 1000);
    let total = ((n / 1000) * sc + (n % 1000) * 1_000_000_000_000_000) * 1000;
    assert(total == n * sc) by (nonlinear_arith)
        requires
            sc == 1_000_000_000_000_000_000nat,
            n == (n / 1000) * 1000 + n % 1000,
            total == ((n / 1000) * sc + (n % 1000) * 1_000_000_000_000_000) * 1000,
    ;
    assert(t[0] == d[0]);
}

proof fn lemma_round_ms(n: nat)
    requires
        1_000_000 <= n < 1_000_000_000,
    ensures
        scan_segments(duration_text(n), 0, 0) == Ok::<nat, DurationError>(n * scale()),
        duration_text(n).len() >= 1,
        is_digit(duration_text(n)[0]),
        duration_text(n).last() == 's',
{
    reveal_with_fuel(pow10, 19);
    lemma_scale_value();
    reveal_strlit("s");
    let sc = scale();
    let t = duration_text(n);
    let e = Seq::<char>::empty();
    assert(scan_segments(e, 0, 0) == Ok::<nat, DurationError>(0));
    lemma_units(e);
    reveal_strlit("ms");
    lemma_frac_numeral(n, 1_000_000, 6);
    let d = frac_text(n, 1_000_000, 6);
    assert(t =~= d + "ms"@ + e);
    lemma_segment(d, "ms"@, e, 0, 0, 2, 2, 1000000);
    let total = ((n / 1_000_000) * sc + (n % 1_000_000) * 1_000_000_000_000) * 1_000_000;
    assert(total == n * sc) by (nonlinear_arith)
        requires
            sc == 1_000_000_000_000_000_000nat,
            n == (n / 1_000_000) * 1_000_000 + n % 1_000_000,
            total == ((n / 1_000_000) * sc + (n % 1_000_000) * 1_000_000_000_000) * 1_000_000,
    ;
    assert(t[0] == d[0]);
}

/// The seconds segment of a rendered duration, from byte position `pos`
/// with `acc` already summed.
proof fn lemma_round_secs(rem: nat, pos: u64, acc: nat)
    ensures
        scan_segments(seconds_text(rem), pos, acc) == Ok::<nat, DurationError>(acc + rem * scale()),
        seconds_text(rem).len() >= 1,
        is_digit(seconds_text(rem)[0]),
        seconds_text(rem).last() == 's',
{
    reveal_with_fuel(pow10, 19);
    lemma_scale_value();
    reveal_strlit("s");
    let sc = scale();
    let e = Seq::<char>::empty();
    lemma_units(e);
    lemma_frac_numeral(rem, 1_000_000_000, 9);
    let sd = frac_text(rem, 1_000_000_000, 9);
    let secs = ((rem / 1_000_000_000) * sc + (rem % 1_000_000_000) * 1_000_000_000) * 1_000_000_000;
    assert(secs == rem * sc) by (nonlinear_arith)
        requires
            sc == 1_000_000_000_000_000_000nat,
            rem == (rem / 1_000_000_000) * 1_000_000_000 + rem % 1_000_000_000,
            secs == ((rem / 1_000_000_000) * sc + (rem % 1_000_000_000) * 1_000_000_000) * 1_000_000_000,
    ;
    assert(seconds_text(rem) =~= sd + "s"@ + e);
    let p2 = pos.wrapping_add(sd.len() as u64).wrapping_add(1);
    lemma_segment(sd, "s"@, e, pos, acc, 1, 1, 1000000000);
    assert(scan_segments(e, p2, acc + secs) == Ok::<nat, DurationError>(acc + secs));
    assert(seconds_text(rem)[0] == sd[0]);
}

proof fn lemma_round_long(n: nat)
    requires
        1_000_000_000 <= n,
    ensures
        scan_segments(duration_text(n), 0, 0) == Ok::<nat, DurationError>(n * scale()),
        duration_text(n).len() >= 1,
        is_digit(duration_text(n)[0]),
        duration_text(n).last() == 's',
{
    reveal_with_fuel(pow10, 19);
    lemma_scale_value();
    reveal_strlit("m");
    reveal_strlit("h");
    let sc = scale();
    let t = duration_text(n);
    let mins = n / 60_000_000_000;
    let rem = n % 60_000_000_000;
    let st = seconds_text(rem);
    if mins == 0 {
        assert(rem == n);
        assert(t == st);
        lemma_round_secs(rem, 0, 0);
    } else if mins < 60 {
        lemma_decimal_scan(mins);
        let md = text::decimal(mins);
        lemma_round_secs(rem, 0, 0);
        lemma_units(st);
        assert(t =~= md + "m"@ + st);
        lemma_segment(md, "m"@, st, 0, 0, 1, 1, 60000000000);
        let p1 = (0u64).wrapping_add(md.len() as u64).wrapping_add(1);
        let a1 = 0 + mins * sc * 60000000000;
        lemma_round_secs(rem, p1, a1);
        assert(t[0] == md[0]);
        assert(t.last() == st.last());
        assert(a1 + rem * sc == n * sc) by (nonlinear_arith)
            requires
                n == mins * 60000000000 + rem,
                a1 == mins * sc * 60000000000,
        ;
    } else {
        let hh = mins / 60;
        let mm = mins % 60;
        lemma_decimal_scan(hh);
        lemma_decimal_scan(mm);
        let hd = text::decimal(hh);
        let md = text::decimal(mm);
        lemma_round_secs(rem, 0, 0);
        let r1 = md + "m"@ + st;
        assert(r1[0] == md[0]);
        lemma_units(r1);
        lemma_units(st);
        assert(t =~= hd + "h"@ + r1);
        lemma_segment(hd, "h"@, r1, 0, 0, 1, 1, 3600000000000);
        let p1 = (0u64).wrapping_add(hd.len() as u64).wrapping_add(1);
        let a1 = 0 + hh * sc * 3600000000000;
        lemma_segment(md, "m"@, st, p1, a1, 1, 1, 60000000000);
        let p2 = p1.wrapping_add(md.len() as u64).wrapping_add(1);
        let a2 = a1 + mm * sc * 60000000000;
        lemma_round_secs(rem, p2, a2);
        assert(t[0] == hd[0]);
        assert(t.last() == st.last());
        assert(a2 + rem * sc == n * sc) by (nonlinear_arith)
            requires
                n == mins * 60000000000 + rem,
                mins == hh * 60 + mm,
                a2 == hh * sc * 3600000000000 + mm * sc * 60000000000,
        ;
    }
}

/// Parsing gives back what formatting rendered: the text of `n`
/// nanoseconds (any `n` that a `u64` holds) parses as exactly `n`
/// nanoseconds.
pub proof fn lemma_duration_round_trip(n: nat)
    requires
        n <= u64::MAX,
    ensures
        duration_spec(duration_text(n)) == Ok::<nat, DurationError>(n),
{
    if n == 0 {
        lemma_round_zero(n);
    } else if n < 1000 {
        lemma_round_ns(n);
    } else if n < 1_000_000 {
        lemma_round_us(n);
    } else if n < 1_000_000_000 {
        lemma_round_ms(n);
    } else {
        lemma_round_long(n);
    }
    let t = duration_text(n);
    let sc = scale();
    lemma_scale_value();
    reveal_strlit("0");
    lemma_trim_rendered(t);
    assert(((n * sc + sc / 2) / sc) == n) by (nonlinear_arith)
        requires
            sc == 1_000_000_000_000_000_000nat,
    ;
    assert(t != "0"@) by {
        if t.len() == 1 {
            assert(t[0] != '0');
        }
    }
}

} // verus!
