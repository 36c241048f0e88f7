//! Field-name styles in the manner of serde's `rename_all` (camelCase,
//! snake_case, PascalCase, kebab-case, SCREAMING_SNAKE_CASE, lowercase,
//! UPPERCASE): the name is split into words at `_`/`-` and at case
//! boundaries, then the words are joined in the style.
use vstd::prelude::*;
use crate::text;

verus! {

/// Whether std counts `c` as uppercase (`char::is_uppercase`).
pub uninterp spec fn upper_prop(c: char) -> bool;

/// Whether std counts `c` as lowercase (`char::is_lowercase`).
pub uninterp spec fn lower_prop(c: char) -> bool;

/// Whether std counts `c` as numeric (`char::is_numeric`).
pub uninterp spec fn numeric_prop(c: char) -> bool;

/// std's lower-case mapping of a text (`str::to_lowercase`).
pub uninterp spec fn lowercase_of(s: Seq<char>) -> Seq<char>;

/// std's upper-case mapping of a text (`str::to_uppercase`).
pub uninterp spec fn uppercase_of(s: Seq<char>) -> Seq<char>;

/// std's upper-case mapping of one character (`char::to_uppercase`).
pub uninterp spec fn char_uppercase_of(c: char) -> Seq<char>;

/// ASCII upper-casing of one character.
pub open spec fn upper_char(c: char) -> char {
    if 'a' <= c && c <= 'z' {
        ((c as u32) - 32) as char
    } else {
        c
    }
}

/// ASCII upper-casing of a text.
pub open spec fn upper_ascii(s: Seq<char>) -> Seq<char> {
    s.map_values(|c: char| upper_char(c))
}

/// Whether a text is ASCII.
pub open spec fn ascii_text(s: Seq<char>) -> bool {
    forall|i: int| 0 <= i < s.len() ==> (#[trigger] s[i] as u32) < 0x80
}

/// `char::is_uppercase`: for ASCII, exactly `A`-`Z`.
pub open spec fn upper(c: char) -> bool {
    if (c as u32) < 0x80 {
        'A' <= c && c <= 'Z'
    } else {
        upper_prop(c)
    }
}

/// `char::is_lowercase`: for ASCII, exactly `a`-`z`.
pub open spec fn lower(c: char) -> bool {
    if (c as u32) < 0x80 {
        'a' <= c && c <= 'z'
    } else {
        lower_prop(c)
    }
}

/// `char::is_numeric`: for ASCII, exactly `0`-`9`.
pub open spec fn numeric(c: char) -> bool {
    if (c as u32) < 0x80 {
        '0' <= c && c <= '9'
    } else {
        numeric_prop(c)
    }
}

/// `str::to_lowercase`: the ASCII mapping on an ASCII text.
pub open spec fn lowered(s: Seq<char>) -> Seq<char> {
    if ascii_text(s) {
        text::lower(s)
    } else {
        lowercase_of(s)
    }
}

/// `str::to_uppercase`: the ASCII mapping on an ASCII text.
pub open spec fn uppered(s: Seq<char>) -> Seq<char> {
    if ascii_text(s) {
        upper_ascii(s)
    } else {
        uppercase_of(s)
    }
}

/// `char::to_uppercase` as a text: one character for an ASCII one.
pub open spec fn char_upper(c: char) -> Seq<char> {
    if (c as u32) < 0x80 {
        seq![upper_char(c)]
    } else {
        char_uppercase_of(c)
    }
}

/// `char::is_uppercase`: the Unicode `Uppercase` property (for ASCII,
/// exactly `A`-`Z`; beyond ASCII left to the name `upper_prop`).
#[verifier::external_body]
fn is_upper(c: char) -> (r: bool)
    ensures
        r == upper(c),
        (c as u32) >= 0x80 ==> r == upper_prop(c),
{
    c.is_uppercase()
}

/// `char::is_lowercase`: the Unicode `Lowercase` property (for ASCII,
/// exactly `a`-`z`; beyond ASCII left to the name `lower_prop`).
#[verifier::external_body]
fn is_lower(c: char) -> (r: bool)
    ensures
        r == lower(c),
        (c as u32) >= 0x80 ==> r == lower_prop(c),
{
    c.is_lowercase()
}

/// `char::is_numeric`: the Unicode numeric general categories (for
/// ASCII, exactly `0`-`9`; beyond ASCII left to the name `numeric_prop`).
#[verifier::external_body]
fn is_numeric(c: char) -> (r: bool)
    ensures
        r == numeric(c),
        (c as u32) >= 0x80 ==> r == numeric_prop(c),
{
    c.is_numeric()
}

/// `str::to_lowercase`: the Unicode lower-case mapping of a text (the
/// ASCII mapping on an ASCII text; otherwise left to the name
/// `lowercase_of`).
#[verifier::external_body]
pub(crate) fn to_lower(s: &str) -> (r: String)
    ensures
        r@ == lowered(s@),
        !ascii_text(s@) ==> r@ == lowercase_of(s@),
{
    s.to_lowercase()
}

/// `str::to_uppercase`: the Unicode upper-case mapping of a text (the
/// ASCII mapping on an ASCII text; otherwise left to the name
/// `uppercase_of`).
#[verifier::external_body]
fn to_upper(s: &str) -> (r: String)
    ensures
        r@ == uppered(s@),
        !ascii_text(s@) ==> r@ == uppercase_of(s@),
{
    s.to_uppercase()
}

/// `char::to_uppercase`, collected into a text (one ASCII character for an
/// ASCII one; otherwise left to the name `char_uppercase_of`).
#[verifier::external_body]
fn char_to_upper(c: char) -> (r: String)
    ensures
        r@ == char_upper(c),
        (c as u32) >= 0x80 ==> r@ == char_uppercase_of(c),
{
    c.to_uppercase().collect::<String>()
}

/// The word split state: finished words and the word being built.
pub struct Split {
    pub words: Seq<Seq<char>>,
    pub cur: Seq<char>,
}

/// What character `i` does to the split: `_` and `-` end a word; an
/// uppercase letter after a letter that is neither uppercase nor numeric
/// starts one; so does an uppercase letter that follows an uppercase one
/// and precedes a lowercase one, after a run of at least two letters
/// (`HTMLParser` gives `HTML` and `Parser`).
pub open spec fn split_step(cs: Seq<char>, i: int, st: Split) -> Split {
    let c = cs[i];
    let cur = st.cur;
    if c == '_' || c == '-' {
        if cur.len() > 0 {
            Split { words: st.words.push(cur), cur: Seq::empty() }
        } else {
            st
        }
    } else if upper(c) && cur.len() > 0 && !upper(cur.last()) && !numeric(
        cur.last(),
    ) {
        Split { words: st.words.push(cur), cur: seq![c] }
    } else if upper(c) && i > 0 && upper(cs[i - 1]) && i + 1 < cs.len() && lower(
        cs[i + 1],
    ) && cur.len() > 1 {
        Split { words: st.words.push(cur), cur: seq![c] }
    } else {
        Split { words: st.words, cur: cur.push(c) }
    }
}

/// The split state after the first `n` characters.
pub open spec fn split_upto(cs: Seq<char>, n: int) -> Split
    decreases n,
{
    if n <= 0 {
        Split { words: Seq::empty(), cur: Seq::empty() }
    } else {
        split_step(cs, n - 1, split_upto(cs, n - 1))
    }
}

/// The words of a name, lower-cased; a name without letters of its own
/// (only separators) is one word, itself.
pub open spec fn words_of(input: Seq<char>) -> Seq<Seq<char>> {
    let st = split_upto(input, input.len() as int);
    let ws = if st.cur.len() > 0 {
        st.words.push(st.cur)
    } else {
        st.words
    };
    let ws2 = if ws.len() == 0 && input.len() > 0 {
        seq![input]
    } else {
        ws
    };
    ws2.map_values(|w: Seq<char>| lowered(w))
}

/// A word with its first character upper-cased.
pub open spec fn capitalized(w: Seq<char>) -> Seq<char> {
    if w.len() == 0 {
        Seq::empty()
    } else {
        char_upper(w[0]) + w.drop_first()
    }
}

/// The words concatenated.
pub open spec fn concat_all(ws: Seq<Seq<char>>) -> Seq<char>
    decreases ws.len(),
{
    if ws.len() == 0 {
        Seq::empty()
    } else {
        concat_all(ws.drop_last()) + ws.last()
    }
}

/// The words capitalized and concatenated (PascalCase).
pub open spec fn pascal(ws: Seq<Seq<char>>) -> Seq<char>
    decreases ws.len(),
{
    if ws.len() == 0 {
        Seq::empty()
    } else {
        pascal(ws.drop_last()) + capitalized(ws.last())
    }
}

/// camelCase: the first word lower-cased, the others capitalized.
pub open spec fn camel(ws: Seq<Seq<char>>) -> Seq<char> {
    if ws.len() == 0 {
        Seq::empty()
    } else {
        lowered(ws[0]) + pascal(ws.drop_first())
    }
}

/// A name in a style; an unknown style keeps the name.
pub open spec fn apply_spec(style: Seq<char>, input: Seq<char>) -> Seq<char> {
    let ws = words_of(input);
    if style == "camelCase"@ {
        camel(ws)
    } else if style == "snake_case"@ {
        lowered(text::join(ws, "_"@))
    } else if style == "PascalCase"@ {
        pascal(ws)
    } else if style == "kebab-case"@ {
        lowered(text::join(ws, "-"@))
    } else if style == "SCREAMING_SNAKE_CASE"@ {
        uppered(text::join(ws, "_"@))
    } else if style == "lowercase"@ {
        lowered(concat_all(ws))
    } else if style == "UPPERCASE"@ {
        uppered(concat_all(ws))
    } else {
        input
    }
}

fn split_words(input: &str) -> (r: Vec<String>)
    ensures
        text::views(r@) == words_of(input@),
{
    let cs = text::chars_of(input);
    let mut words: Vec<String> = Vec::new();
    let mut cur: Vec<char> = Vec::new();
    let mut i: usize = 0;
    assert(text::views(words@) == Seq::<Seq<char>>::empty());
    while i < cs.len()
        invariant
            i <= cs.len(),
            cs@ == input@,
            text::views(words@) == split_upto(cs@, i as int).words,
            cur@ == split_upto(cs@, i as int).cur,
        decreases cs.len() - i,
    {
        let c = cs[i];
        let ghost vw = text::views(words@);
        if c == '_' || c == '-' {
            if cur.len() > 0 {
                words.push(text::string_of(cur.as_slice()));
                assert(text::views(words@) == vw.push(cur@));
                cur = Vec::new();
            }
        } else if is_upper(c) && cur.len() > 0 && !is_upper(cur[cur.len() - 1]) && !is_numeric(
            cur[cur.len() - 1],
        ) {
            words.push(text::string_of(cur.as_slice()));
            assert(text::views(words@) == vw.push(cur@));
            cur = Vec::new();
            cur.push(c);
            assert(cur@ == seq![c]);
        } else if is_upper(c) && i > 0 && is_upper(cs[i - 1]) && i + 1 < cs.len() && is_lower(
            cs[i + 1],
        ) && cur.len() > 1 {
            words.push(text::string_of(cur.as_slice()));
            assert(text::views(words@) == vw.push(cur@));
            cur = Vec::new();
            cur.push(c);
            assert(cur@ == seq![c]);
        } else {
            cur.push(c);
        }
        i += 1;
    }
    if cur.len() > 0 {
        words.push(text::string_of(cur.as_slice()));
    }
    if words.len() == 0 && cs.len() > 0 {
        words.push(text::owned(input));
    }
    let ghost ws2 = text::views(words@);
    let mut out: Vec<String> = Vec::new();
    let mut k: usize = 0;
    while k < words.len()
        invariant
            k <= words.len(),
            ws2 == text::views(words@),
            text::views(out@) == ws2.take(k as int).map_values(|w: Seq<char>| lowered(w)),
        decreases words.len() - k,
    {
        let ghost before = text::views(out@);
        out.push(to_lower(words[k].as_str()));
        assert(ws2.take(k + 1) == ws2.take(k as int).push(ws2[k as int]));
        assert(text::views(out@) == before.push(lowered(ws2[k as int])));
        k += 1;
    }
    assert(ws2.take(words.len() as int) == ws2);
    out
}

fn capitalize(w: &str) -> (r: String)
    ensures
        r@ == capitalized(w@),
{
    let cs = text::chars_of(w);
    if cs.len() == 0 {
        return String::new();
    }
    let mut r = char_to_upper(cs[0]);
    let rest = text::string_of(text::slice_of(cs.as_slice(), 1, cs.len()).as_slice());
    text::append(&mut r, rest.as_str());
    assert(w@.drop_first() == w@.subrange(1, w@.len() as int));
    r
}

fn pascal_of(ws: &Vec<String>, from: usize) -> (r: String)
    requires
        from <= ws.len(),
    ensures
        r@ == pascal(text::views(ws@).skip(from as int)),
{
    let ghost vw = text::views(ws@);
    let mut out = String::new();
    let mut k: usize = from;
    assert(vw.skip(from as int).take(0) == Seq::<Seq<char>>::empty());
    while k < ws.len()
        invariant
            from <= k <= ws.len(),
            vw == text::views(ws@),
            out@ == pascal(vw.skip(from as int).take(k - from)),
        decreases ws.len() - k,
    {
        proof {
            assert(vw.skip(from as int).take(k - from + 1).drop_last() == vw.skip(from as int).take(
                k - from,
            ));
            assert(vw.skip(from as int).take(k - from + 1).last() == ws@[k as int]@);
        }
        let c = capitalize(ws[k].as_str());
        text::append(&mut out, c.as_str());
        k += 1;
    }
    assert(vw.skip(from as int).take(ws.len() - from) == vw.skip(from as int));
    out
}

fn concat_of(ws: &Vec<String>) -> (r: String)
    ensures
        r@ == concat_all(text::views(ws@)),
{
    let ghost vw = text::views(ws@);
    let mut out = String::new();
    let mut k: usize = 0;
    while k < ws.len()
        invariant
            k <= ws.len(),
            vw == text::views(ws@),
            out@ == concat_all(vw.take(k as int)),
        decreases ws.len() - k,
    {
        proof {
            assert(vw.take(k + 1).drop_last() == vw.take(k as int));
            assert(vw.take(k + 1).last() == ws@[k as int]@);
        }
        text::append(&mut out, ws[k].as_str());
        k += 1;
    }
    assert(vw.take(ws.len() as int) == vw);
    out
}

/// The name `input` in the naming `style`.
pub fn apply(style: &str, input: &str) -> (r: String)
    ensures
        r@ == apply_spec(style@, input@),
{
    let words = split_words(input);
    let ghost ws = text::views(words@);
    if text::str_eq(style, "camelCase") {
        if words.len() == 0 {
            return String::new();
        }
        let mut out = to_lower(words[0].as_str());
        let rest = pascal_of(&words, 1);
        text::append(&mut out, rest.as_str());
        assert(ws.skip(1) == ws.drop_first());
        return out;
    }
    if text::str_eq(style, "snake_case") {
        let j = text::join_strings(&words, "_");
        return to_lower(j.as_str());
    }
    if text::str_eq(style, "PascalCase") {
        let r = pascal_of(&words, 0);
        assert(ws.skip(0) == ws);
        return r;
    }
    if text::str_eq(style, "kebab-case") {
        let j = text::join_strings(&words, "-");
        return to_lower(j.as_str());
    }
    if text::str_eq(style, "SCREAMING_SNAKE_CASE") {
        let j = text::join_strings(&words, "_");
        return to_upper(j.as_str());
    }
    if text::str_eq(style, "lowercase") {
        let c = concat_of(&words);
        return to_lower(c.as_str());
    }
    if text::str_eq(style, "UPPERCASE") {
        let c = concat_of(&words);
        return to_upper(c.as_str());
    }
    text::owned(input)
}


/// The wire name of a field: its own `name` attribute where given, else
/// serde's `rename`, else the field's Rust name in the container's
/// `rename_all` style, else the Rust name itself.
pub open spec fn wire_name_spec(
    rust: Seq<char>,
    name: Option<Seq<char>>,
    serde_rename: Option<Seq<char>>,
    rename_all: Option<Seq<char>>,
) -> Seq<char> {
    match name {
        Some(n) => n,
        None => match serde_rename {
            Some(r) => r,
            None => match rename_all {
                Some(style) => apply_spec(style, rust),
                None => rust,
            },
        },
    }
}

/// Decides a field's wire name (see [`wire_name_spec`]).
pub fn wire_name(rust: &str, name: Option<&str>, serde_rename: Option<&str>, rename_all: Option<&str>) -> (r: String)
    ensures
        r@ == wire_name_spec(
            rust@,
            match name {
                Some(n) => Some(n@),
                None => None,
            },
            match serde_rename {
                Some(x) => Some(x@),
                None => None,
            },
            match rename_all {
                Some(x) => Some(x@),
                None => None,
            },
        ),
{
    if let Some(n) = name {
        return text::owned(n);
    }
    if let Some(x) = serde_rename {
        return text::owned(x);
    }
    if let Some(style) = rename_all {
        return apply(style, rust);
    }
    text::owned(rust)
}

} // verus!
