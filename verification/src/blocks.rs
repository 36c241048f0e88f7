//! Content-block results: a handler may return [`Blocks`] in place of a
//! plain JSON value.  Blocks cross the frontends as the reserved block
//! envelope: an object whose only member is `content`, an array of items
//! shaped `{"type":"text","text":…}` or
//! `{"type":"image"|"audio","mimeType":…,"data":…}` (base64 payload).
//! [`extract`] recognises the envelope by its shape.
use vstd::prelude::*;
use crate::errors;
use crate::json::{self, Json};
use crate::text;
use vstd::string::StringSliceAdditionalSpecFns;

verus! {

/// One content block.
#[derive(Debug, Clone, PartialEq, Eq)]
pub enum Block {
    Text { text: String },
    /// `data` is the base64 payload.
    Image { mime_type: String, data: String },
    Audio { mime_type: String, data: String },
}

/// A block as plain values.
pub enum BlockView {
    Text(Seq<char>),
    Image(Seq<char>, Seq<char>),
    Audio(Seq<char>, Seq<char>),
}

impl View for Block {
    type V = BlockView;

    open spec fn view(&self) -> BlockView {
        match self {
            Block::Text { text } => BlockView::Text(text@),
            Block::Image { mime_type, data } => BlockView::Image(mime_type@, data@),
            Block::Audio { mime_type, data } => BlockView::Audio(mime_type@, data@),
        }
    }
}

/// The views of a list of blocks.
pub open spec fn block_views(v: Seq<Block>) -> Seq<BlockView> {
    v.map_values(|b: Block| b@)
}

/// A block result: the content blocks in order.
#[derive(Debug, Clone, PartialEq, Eq, Default)]
pub struct Blocks {
    pub content: Vec<Block>,
}

impl View for Blocks {
    type V = Seq<BlockView>;

    open spec fn view(&self) -> Seq<BlockView> {
        block_views(self.content@)
    }
}

impl Blocks {
    /// The blocks `content`, in order.
    pub fn new(content: Vec<Block>) -> (r: Blocks)
        ensures
            r.content@ == content@,
    {
        Blocks { content }
    }

    /// One text block.
    pub fn text(text: &str) -> (r: Blocks)
        ensures
            r@ == seq![BlockView::Text(text@)],
    {
        let r = Blocks::new(vec![Block::Text { text: text::owned(text) }]);
        assert(r@ =~= seq![BlockView::Text(text@)]);
        r
    }

    /// One image block.
    pub fn image(mime_type: &str, data: &str) -> (r: Blocks)
        ensures
            r@ == seq![BlockView::Image(mime_type@, data@)],
    {
        let r = Blocks::new(
            vec![Block::Image { mime_type: text::owned(mime_type), data: text::owned(data) }],
        );
        assert(r@ =~= seq![BlockView::Image(mime_type@, data@)]);
        r
    }

    /// One audio block.
    pub fn audio(mime_type: &str, data: &str) -> (r: Blocks)
        ensures
            r@ == seq![BlockView::Audio(mime_type@, data@)],
    {
        let r = Blocks::new(
            vec![Block::Audio { mime_type: text::owned(mime_type), data: text::owned(data) }],
        );
        assert(r@ =~= seq![BlockView::Audio(mime_type@, data@)]);
        r
    }

    /// Appends one block.
    pub fn push(&mut self, block: Block)
        ensures
            final(self).content@ == old(self).content@.push(block),
            final(self)@ == old(self)@.push(block@),
    {
        self.content.push(block);
        assert(self@ =~= old(self)@.push(block@));
    }

    /// The reserved envelope of these blocks; reading it back (see
    /// [`extract`], whose result is `extract_spec` of its argument) gives
    /// these very blocks.
    pub fn envelope(&self) -> (r: Json)
        ensures
            extract_spec(r) == Some(self@),
    {
        let mut items: Vec<Json> = Vec::new();
        let mut i: usize = 0;
        while i < self.content.len()
            invariant
                i <= self.content.len(),
                items@.len() == i,
                all_blocks(items@) == Some(block_views(self.content@.take(i as int))),
            decreases self.content.len() - i,
        {
            let item = block_envelope(&self.content[i]);
            proof {
                assert(items@.push(item).drop_last() == items@);
                assert(block_views(self.content@.take(i + 1)) == block_views(
                    self.content@.take(i as int),
                ).push(self.content@[i as int]@));
            }
            items.push(item);
            i += 1;
        }
        assert(self.content@.take(i as int) == self.content@);
        let r = Json::Object(vec![(text::owned("content"), Json::Array(items))]);
        proof {
            reveal_strlit("content");
        }
        r
    }
}

/// The envelope item of one block.
fn block_envelope(b: &Block) -> (r: Json)
    ensures
        block_of(r) == Some(b@),
{
    proof {
        reveal_strlit("type");
        reveal_strlit("text");
        reveal_strlit("image");
        reveal_strlit("audio");
        reveal_strlit("mimeType");
        reveal_strlit("data");
        reveal_with_fuel(json::member, 4);
    }
    match b {
        Block::Text { text } => {
            let es = vec![
                (text::owned("type"), Json::Str(text::owned("text"))),
                (text::owned("text"), Json::Str(text.clone())),
            ];
            assert(json::member(es@, "type"@) == Some(es@[0].1));
            assert("type"@[1] != "text"@[1]);
            assert(json::member(es@.drop_first(), "text"@) == Some(es@[1].1));
            assert(json::member(es@, "text"@) == Some(es@[1].1));
            assert(json::str_of(json::member(es@, "type"@)) == Some("text"@));
            assert(json::str_of(json::member(es@, "text"@)) == Some(text@));
            let r = Json::Object(es);
            assert(block_of(r) == Some(BlockView::Text(text@)));
            r
        },
        Block::Image { mime_type, data } => {
            let es = vec![
                (text::owned("type"), Json::Str(text::owned("image"))),
                (text::owned("mimeType"), Json::Str(mime_type.clone())),
                (text::owned("data"), Json::Str(data.clone())),
            ];
            assert(json::member(es@, "type"@) == Some(es@[0].1));
            assert(json::member(es@.drop_first(), "mimeType"@) == Some(es@[1].1));
            assert(json::member(es@.drop_first().drop_first(), "data"@) == Some(es@[2].1));
            assert("type"@.len() != "data"@.len() || "type"@[0] != "data"@[0]);
            assert("mimeType"@.len() != "data"@.len());
            assert(json::member(es@, "mimeType"@) == Some(es@[1].1));
            assert(json::member(es@, "data"@) == Some(es@[2].1));
            assert(json::str_of(json::member(es@, "type"@)) == Some("image"@));
            assert("image"@.len() != "text"@.len());
            let r = Json::Object(es);
            assert(block_of(r) == Some(BlockView::Image(mime_type@, data@)));
            r
        },
        Block::Audio { mime_type, data } => {
            let es = vec![
                (text::owned("type"), Json::Str(text::owned("audio"))),
                (text::owned("mimeType"), Json::Str(mime_type.clone())),
                (text::owned("data"), Json::Str(data.clone())),
            ];
            assert(json::member(es@, "type"@) == Some(es@[0].1));
            assert(json::member(es@.drop_first(), "mimeType"@) == Some(es@[1].1));
            assert(json::member(es@.drop_first().drop_first(), "data"@) == Some(es@[2].1));
            assert("type"@.len() != "data"@.len() || "type"@[0] != "data"@[0]);
            assert("mimeType"@.len() != "data"@.len());
            assert(json::member(es@, "mimeType"@) == Some(es@[1].1));
            assert(json::member(es@, "data"@) == Some(es@[2].1));
            assert(json::str_of(json::member(es@, "type"@)) == Some("audio"@));
            assert("audio"@.len() != "text"@.len());
            assert("audio"@[0] != "image"@[0]);
            let r = Json::Object(es);
            assert(block_of(r) == Some(BlockView::Audio(mime_type@, data@)));
            r
        },
    }
}

/// The block an envelope item stands for: an object whose string `type`
/// is `text` (with a string `text`), or `image` / `audio` (with string
/// `mimeType` and `data`).
pub open spec fn block_of(v: Json) -> Option<BlockView> {
    match v {
        Json::Object(es) => {
            let t = json::str_of(json::member(es@, "type"@));
            let txt = json::str_of(json::member(es@, "text"@));
            let mime = json::str_of(json::member(es@, "mimeType"@));
            let data = json::str_of(json::member(es@, "data"@));
            if t == Some("text"@) {
                match txt {
                    Some(x) => Some(BlockView::Text(x)),
                    None => None,
                }
            } else if t == Some("image"@) {
                match (mime, data) {
                    (Some(m), Some(d)) => Some(BlockView::Image(m, d)),
                    _ => None,
                }
            } else if t == Some("audio"@) {
                match (mime, data) {
                    (Some(m), Some(d)) => Some(BlockView::Audio(m, d)),
                    _ => None,
                }
            } else {
                None
            }
        },
        _ => None,
    }
}

/// The blocks of a list of envelope items; one bad item spoils the list.
pub open spec fn all_blocks(items: Seq<Json>) -> Option<Seq<BlockView>>
    decreases items.len(),
{
    if items.len() == 0 {
        Some(Seq::empty())
    } else {
        match (all_blocks(items.drop_last()), block_of(items.last())) {
            (Some(bs), Some(b)) => Some(bs.push(b)),
            _ => None,
        }
    }
}

/// The blocks of a reserved envelope: an object with `content` as its only
/// member, an array of well-shaped items.  Anything else is plain JSON.
pub open spec fn extract_spec(v: Json) -> Option<Seq<BlockView>> {
    match v {
        Json::Object(es) => if es@.len() == 1 && es@[0].0@ == "content"@ {
            match es@[0].1 {
                Json::Array(items) => all_blocks(items@),
                _ => None,
            }
        } else {
            None
        },
        _ => None,
    }
}

fn block_from_value(v: &Json) -> (r: Option<Block>)
    ensures
        match r {
            Some(b) => block_of(*v) == Some(b@),
            None => block_of(*v) is None,
        },
{
    proof {
        reveal_strlit("text");
        reveal_strlit("image");
        reveal_strlit("audio");
    }
    match v {
        Json::Object(es) => {
            let t = match json::get_str(es, "type") {
                Some(t) => t,
                None => {
                    return None;
                },
            };
            if text::str_eq(t.as_str(), "text") {
                match json::get_str(es, "text") {
                    Some(x) => Some(Block::Text { text: x.clone() }),
                    None => None,
                }
            } else if text::str_eq(t.as_str(), "image") || text::str_eq(t.as_str(), "audio") {
                let m = match json::get_str(es, "mimeType") {
                    Some(m) => m.clone(),
                    None => {
                        return None;
                    },
                };
                let d = match json::get_str(es, "data") {
                    Some(d) => d.clone(),
                    None => {
                        return None;
                    },
                };
                if text::str_eq(t.as_str(), "image") {
                    Some(Block::Image { mime_type: m, data: d })
                } else {
                    Some(Block::Audio { mime_type: m, data: d })
                }
            } else {
                None
            }
        },
        _ => None,
    }
}

/// Recognises the reserved block envelope and gives back its blocks; plain
/// JSON, and an envelope with one ill-shaped item, give `None`.
pub fn extract(v: &Json) -> (r: Option<Vec<Block>>)
    ensures
        match r {
            Some(bs) => extract_spec(*v) == Some(block_views(bs@)),
            None => extract_spec(*v) is None,
        },
{
    proof {
        reveal_strlit("content");
    }
    let es = match v {
        Json::Object(es) => es,
        _ => {
            return None;
        },
    };
    if es.len() != 1 || !text::str_eq(es[0].0.as_str(), "content") {
        return None;
    }
    let items = match &es[0].1 {
        Json::Array(items) => items,
        _ => {
            return None;
        },
    };
    let mut out: Vec<Block> = Vec::new();
    let mut i: usize = 0;
    assert(items@.take(0) == Seq::<Json>::empty());
    while i < items.len()
        invariant
            i <= items.len(),
            out@.len() == i,
            extract_spec(*v) == all_blocks(items@),
            all_blocks(items@.take(i as int)) == Some(block_views(out@)),
        decreases items.len() - i,
    {
        let b = match block_from_value(&items[i]) {
            Some(b) => b,
            None => {
                proof {
                    lemma_all_blocks_spoiled(items@, i + 1);
                }
                return None;
            },
        };
        proof {
            assert(items@.take(i + 1).drop_last() == items@.take(i as int));
            assert(block_views(out@.push(b)) == block_views(out@).push(b@));
        }
        out.push(b);
        i += 1;
    }
    assert(items@.take(i as int) == items@);
    Some(out)
}

/// A list whose prefix has a bad item has no blocks.
proof fn lemma_all_blocks_spoiled(items: Seq<Json>, k: int)
    requires
        0 < k <= items.len(),
        block_of(items[k - 1]) is None,
    ensures
        all_blocks(items) is None,
    decreases items.len() - k,
{
    if k < items.len() {
        assert(items.drop_last()[k - 1] == items[k - 1]);
        lemma_all_blocks_spoiled(items.drop_last(), k);
    }
}

/// The extension of a file that holds a payload of this MIME type
/// (`bin` for unknown types).
pub open spec fn ext_spec(mime: Seq<char>) -> Seq<char> {
    if mime == "image/png"@ {
        "png"@
    } else if mime == "image/jpeg"@ {
        "jpg"@
    } else if mime == "image/gif"@ {
        "gif"@
    } else if mime == "image/webp"@ {
        "webp"@
    } else if mime == "image/bmp"@ {
        "bmp"@
    } else if mime == "image/svg+xml"@ {
        "svg"@
    } else if mime == "audio/mpeg"@ {
        "mp3"@
    } else if mime == "audio/wav"@ {
        "wav"@
    } else if mime == "audio/ogg"@ {
        "ogg"@
    } else {
        "bin"@
    }
}

/// MIME type to file extension (used when the CLI writes a payload out).
pub fn ext_for_mime(mime: &str) -> (r: &'static str)
    ensures
        r@ == ext_spec(mime@),
{
    if text::str_eq(mime, "image/png") {
        "png"
    } else if text::str_eq(mime, "image/jpeg") {
        "jpg"
    } else if text::str_eq(mime, "image/gif") {
        "gif"
    } else if text::str_eq(mime, "image/webp") {
        "webp"
    } else if text::str_eq(mime, "image/bmp") {
        "bmp"
    } else if text::str_eq(mime, "image/svg+xml") {
        "svg"
    } else if text::str_eq(mime, "audio/mpeg") {
        "mp3"
    } else if text::str_eq(mime, "audio/wav") {
        "wav"
    } else if text::str_eq(mime, "audio/ogg") {
        "ogg"
    } else {
        "bin"
    }
}

// ------------------------------------------------------------ base64
/// The 6-bit value of a character of the standard base64 alphabet
/// (`A-Z`, `a-z`, `0-9`, `+`, `/`).
pub open spec fn sextet(b: u8) -> Option<u8> {
    if 65 <= b <= 90 {
        Some((b - 65) as u8)
    } else if 97 <= b <= 122 {
        Some((b - 71) as u8)
    } else if 48 <= b <= 57 {
        Some((b + 4) as u8)
    } else if b == 43 {
        Some(62u8)
    } else if b == 47 {
        Some(63u8)
    } else {
        None
    }
}

/// The 6-bit values of a payload: ASCII whitespace is skipped, the first
/// `=` ends the payload, any other byte outside the alphabet is refused
/// (the first one is named).
pub open spec fn sextets(s: Seq<u8>) -> Result<Seq<u8>, u8>
    decreases s.len(),
{
    if s.len() == 0 {
        Ok(Seq::empty())
    } else if text::is_ascii_ws(s[0]) {
        sextets(s.drop_first())
    } else if s[0] == 61 {
        Ok(Seq::empty())
    } else {
        match sextet(s[0]) {
            Some(v) => match sextets(s.drop_first()) {
                Ok(vs) => Ok(seq![v] + vs),
                Err(b) => Err(b),
            },
            None => Err(s[0]),
        }
    }
}

/// The byte completed by sextet `b` in position `k` (1, 2 or 3) of its
/// group of four, `a` being the sextet before it.
pub open spec fn pair_byte(a: u8, b: u8, k: int) -> u8 {
    if k == 1 {
        (a * 4 + b / 16) as u8
    } else if k == 2 {
        ((a % 16) * 16 + b / 4) as u8
    } else {
        ((a % 4) * 64 + b) as u8
    }
}

/// The bytes of a run of sextets: every group of four gives three bytes,
/// a trailing group of two or three gives one or two, a lone sextet none.
pub open spec fn emitted(v: Seq<u8>) -> Seq<u8>
    decreases v.len(),
{
    if v.len() == 0 {
        Seq::empty()
    } else {
        let k = (v.len() - 1) % 4;
        emitted(v.drop_last()) + if k == 0 {
            Seq::empty()
        } else {
            seq![pair_byte(v[v.len() - 2], v.last(), k)]
        }
    }
}

/// The lower-case hexadecimal digit of `d < 16`.
pub open spec fn hex_digit(d: nat) -> char {
    if d < 10 {
        text::digit_char(d)
    } else if d == 10 {
        'a'
    } else if d == 11 {
        'b'
    } else if d == 12 {
        'c'
    } else if d == 13 {
        'd'
    } else if d == 14 {
        'e'
    } else {
        'f'
    }
}

/// `{:#04x}` of a byte: `0x` and two lower-case hexadecimal digits.
pub open spec fn hex_byte(b: u8) -> Seq<char> {
    "0x"@ + seq![hex_digit((b / 16) as nat), hex_digit((b % 16) as nat)]
}

/// The message for a byte outside the alphabet.
pub open spec fn base64_message(b: u8) -> Seq<char> {
    "invalid base64 payload: byte "@ + hex_byte(b)
}

fn hex_digit_of(d: u8) -> (c: char)
    requires
        d < 16,
    ensures
        c == hex_digit(d as nat),
{
    if d < 10 {
        if d == 0 {
            '0'
        } else if d == 1 {
            '1'
        } else if d == 2 {
            '2'
        } else if d == 3 {
            '3'
        } else if d == 4 {
            '4'
        } else if d == 5 {
            '5'
        } else if d == 6 {
            '6'
        } else if d == 7 {
            '7'
        } else if d == 8 {
            '8'
        } else {
            '9'
        }
    } else if d == 10 {
        'a'
    } else if d == 11 {
        'b'
    } else if d == 12 {
        'c'
    } else if d == 13 {
        'd'
    } else if d == 14 {
        'e'
    } else {
        'f'
    }
}

fn sextet_of(b: u8) -> (r: Option<u8>)
    ensures
        r == sextet(b),
{
    if 65 <= b && b <= 90 {
        Some(b - 65)
    } else if 97 <= b && b <= 122 {
        Some(b - 71)
    } else if 48 <= b && b <= 57 {
        Some(b + 4)
    } else if b == 43 {
        Some(62)
    } else if b == 47 {
        Some(63)
    } else {
        None
    }
}

/// The run of sextets scanned so far, followed by what the rest gives.
pub open spec fn then_rest(done: Seq<u8>, rest: Result<Seq<u8>, u8>) -> Result<Seq<u8>, u8> {
    match rest {
        Ok(vs) => Ok(done + vs),
        Err(b) => Err(b),
    }
}

/// Decodes standard base64 (padding optional, whitespace tolerated). The
/// standard encoding of any bytes, padded or not, decodes back to them.
pub fn decode_base64(s: &str) -> (r: Result<Vec<u8>, errors::Error>)
    ensures
        match r {
            Ok(out) => sextets(s.spec_bytes()) is Ok && out@ == emitted(
                sextets(s.spec_bytes())->Ok_0,
            ),
            Err(e) => sextets(s.spec_bytes()) is Err && e.kind_spec() == errors::Kind::Internal && e.class_spec() == errors::Kind::Internal
                && e.text_spec() == base64_message(sextets(s.spec_bytes())->Err_0),
        },
        forall|bs: Seq<u8>, padded: bool|
            s.spec_bytes() == #[trigger] encoded_bytes(bs, padded) ==> (r matches Ok(out) && out@ == bs),
{
    proof {
        assert forall|bs: Seq<u8>, padded: bool| s.spec_bytes() == #[trigger] encoded_bytes(bs, padded)
            implies sextets(s.spec_bytes()) == Ok::<Seq<u8>, u8>(encoded_sextets(bs))
            && emitted(encoded_sextets(bs)) == bs by {
            lemma_base64_round_trip(bs, padded);
        }
    }
    let bytes = s.as_bytes();
    let ghost bs = s.spec_bytes();
    let ghost mut vals: Seq<u8> = Seq::empty();
    let mut out: Vec<u8> = Vec::new();
    let mut prev: u8 = 0;
    let mut n: usize = 0;
    let mut i: usize = 0;
    let mut done = false;
    proof {
        assert(bs.skip(0) == bs);
        match sextets(bs) {
            Ok(vs) => {
                assert(Seq::<u8>::empty() + vs == vs);
            },
            Err(_) => {},
        }
    }
    while i < bytes.len() && !done
        invariant
            bytes@ == bs,
            i <= bytes.len(),
            bs == s.spec_bytes(),
            n == vals.len(),
            n <= i,
            n > 0 ==> prev == vals.last(),
            forall|k: int| 0 <= k < vals.len() ==> vals[k] < 64,
            out@ == emitted(vals),
            !done ==> sextets(bs) == then_rest(vals, sextets(bs.skip(i as int))),
            done ==> sextets(bs) == Ok::<Seq<u8>, u8>(vals),
        decreases bytes.len() - i + (if done { 0int } else { 1int }),
    {
        let b = bytes[i];
        proof {
            assert(bs.skip(i as int)[0] == b);
            assert(bs.skip(i as int).drop_first() == bs.skip(i + 1));
        }
        if b == 0x20 || b == 0x09 || b == 0x0a || b == 0x0c || b == 0x0d {
            i += 1;
        } else if b == 61 {
            proof {
                assert(vals + Seq::<u8>::empty() == vals);
            }
            done = true;
        } else {
            match sextet_of(b) {
                Some(v) => {
                    let ghost old_vals = vals;
                    if n % 4 == 1 {
                        out.push(prev * 4 + v / 16);
                    } else if n % 4 == 2 {
                        out.push((prev % 16) * 16 + v / 4);
                    } else if n % 4 == 3 {
                        out.push((prev % 4) * 64 + v);
                    }
                    proof {
                        vals = vals.push(v);
                        assert(vals.drop_last() == old_vals);
                        assert(old_vals.push(v) == old_vals + seq![v]);
                        match sextets(bs.skip(i + 1)) {
                            Ok(vs) => {
                                assert(old_vals + (seq![v] + vs) == vals + vs);
                            },
                            Err(_) => {},
                        }
                    }
                    prev = v;
                    n += 1;
                    i += 1;
                },
                None => {
                    let mut m = text::owned("invalid base64 payload: byte 0x");
                    text::push_char(&mut m, hex_digit_of(b / 16));
                    text::push_char(&mut m, hex_digit_of(b % 16));
                    proof {
                        assert(sextets(bs.skip(i as int)) == Err::<Seq<u8>, u8>(b));
                        reveal_strlit("invalid base64 payload: byte 0x");
                        reveal_strlit("invalid base64 payload: byte ");
                        reveal_strlit("0x");
                        assert(m@ == base64_message(b));
                        assert(m@.len() > 0);
                        assert(sextets(bs) == Err::<Seq<u8>, u8>(b));
                    }
                    let e = errors::new(errors::Kind::Internal, m);
                    assert(e.text_spec() == base64_message(b));
                    assert(sextets(s.spec_bytes()) is Err);
                    assert(sextets(s.spec_bytes())->Err_0 == b);
                    assert(e.kind_spec() == errors::Kind::Internal && e.class_spec() == errors::Kind::Internal);
                    return Err(e);
                },
            }
        }
    }
    proof {
        if !done {
            assert(bs.skip(i as int).len() == 0);
            assert(vals + Seq::<u8>::empty() == vals);
        }
    }
    Ok(out)
}


// ------------------------------------------------------------ base64 round trip
/// The sextets of the standard base64 encoding of `bs`, three bytes to four
/// sextets, a last group of one or two bytes to two or three.
pub open spec fn encoded_sextets(bs: Seq<u8>) -> Seq<u8>
    decreases bs.len(),
{
    if bs.len() == 0 {
        Seq::empty()
    } else if bs.len() == 1 {
        seq![(bs[0] / 4) as u8, ((bs[0] % 4) * 16) as u8]
    } else if bs.len() == 2 {
        seq![(bs[0] / 4) as u8, ((bs[0] % 4) * 16 + bs[1] / 16) as u8, ((bs[1] % 16) * 4) as u8]
    } else {
        seq![
            (bs[0] / 4) as u8,
            ((bs[0] % 4) * 16 + bs[1] / 16) as u8,
            ((bs[1] % 16) * 4 + bs[2] / 64) as u8,
            (bs[2] % 64) as u8,
        ] + encoded_sextets(bs.skip(3))
    }
}

/// The alphabet byte of a sextet (`A-Z`, `a-z`, `0-9`, `+`, `/`).
pub open spec fn alphabet_byte(v: u8) -> u8 {
    if v < 26 {
        (v + 65) as u8
    } else if v < 52 {
        (v + 71) as u8
    } else if v < 62 {
        (v - 4) as u8
    } else if v == 62 {
        43u8
    } else {
        47u8
    }
}

/// The standard base64 text of `bs` as bytes, `=`-padded to a multiple of
/// four where `padded`.
pub open spec fn encoded_bytes(bs: Seq<u8>, padded: bool) -> Seq<u8> {
    let vs = encoded_sextets(bs);
    let pad: nat = if padded && vs.len() % 4 != 0 {
        (4 - vs.len() % 4) as nat
    } else {
        0
    };
    vs.map_values(|v: u8| alphabet_byte(v)) + Seq::new(pad, |i: int| 61u8)
}

proof fn lemma_encoded_small(bs: Seq<u8>)
    ensures
        forall|i: int| 0 <= i < encoded_sextets(bs).len() ==> #[trigger] encoded_sextets(bs)[i] < 64,
        encoded_sextets(bs).len() % 4 != 1,
    decreases bs.len(),
{
    if bs.len() >= 3 {
        lemma_encoded_small(bs.skip(3));
        let head = seq![
            (bs[0] / 4) as u8,
            ((bs[0] % 4) * 16 + bs[1] / 16) as u8,
            ((bs[1] % 16) * 4 + bs[2] / 64) as u8,
            (bs[2] % 64) as u8,
        ];
        assert(encoded_sextets(bs) == head + encoded_sextets(bs.skip(3)));
        assert forall|i: int| 0 <= i < encoded_sextets(bs).len() implies #[trigger] encoded_sextets(bs)[i] < 64 by {
            if i >= 4 {
                assert(encoded_sextets(bs)[i] == encoded_sextets(bs.skip(3))[i - 4]);
            }
        }
    }
}

/// Reading the alphabet bytes of sextets, then padding, gives the sextets.
proof fn lemma_sextets_of_alphabet(vs: Seq<u8>, pad: nat)
    requires
        forall|i: int| 0 <= i < vs.len() ==> #[trigger] vs[i] < 64,
    ensures
        sextets(vs.map_values(|v: u8| alphabet_byte(v)) + Seq::new(pad, |i: int| 61u8)) == Ok::<Seq<u8>, u8>(vs),
    decreases vs.len(),
{
    let t = vs.map_values(|v: u8| alphabet_byte(v)) + Seq::new(pad, |i: int| 61u8);
    if vs.len() == 0 {
        assert(t =~= Seq::new(pad, |i: int| 61u8));
        assert(vs =~= Seq::<u8>::empty());
        if pad > 0 {
            assert(t[0] == 61u8);
            assert(!text::is_ascii_ws(61u8));
        }
    } else {
        let v = vs[0];
        assert(t[0] == alphabet_byte(v));
        assert(sextet(alphabet_byte(v)) == Some(v));
        assert(!text::is_ascii_ws(alphabet_byte(v)));
        assert(alphabet_byte(v) != 61u8);
        assert(t.drop_first() =~= vs.drop_first().map_values(|v: u8| alphabet_byte(v)) + Seq::new(
            pad,
            |i: int| 61u8,
        ));
        lemma_sextets_of_alphabet(vs.drop_first(), pad);
        assert(seq![v] + vs.drop_first() =~= vs);
    }
}

/// The bytes of sextets whose first run is a whole number of groups of
/// four are the bytes of that run, then those of the rest.
proof fn lemma_emitted_concat(a: Seq<u8>, b: Seq<u8>)
    requires
        a.len() % 4 == 0,
    ensures
        emitted(a + b) == emitted(a) + emitted(b),
    decreases b.len(),
{
    if b.len() == 0 {
        assert(a + b =~= a);
        assert(emitted(a) + emitted(b) =~= emitted(a));
    } else {
        lemma_emitted_concat(a, b.drop_last());
        assert((a + b).drop_last() =~= a + b.drop_last());
        assert((a + b).last() == b.last());
        if b.len() >= 2 {
            assert((a + b)[(a + b).len() - 2] == b[b.len() - 2]);
        }
        assert(((a + b).len() - 1) % 4 == (b.len() - 1) % 4) by (nonlinear_arith)
            requires
                a.len() % 4 == 0,
                b.len() >= 1,
                (a + b).len() == a.len() + b.len(),
        ;
        assert(emitted(a + b) =~= emitted(a) + emitted(b));
    }
}

proof fn lemma_group_bytes(b0: u8, b1: u8, b2: u8)
    ensures
        pair_byte((b0 / 4) as u8, ((b0 % 4) * 16 + b1 / 16) as u8, 1) == b0,
        pair_byte(((b0 % 4) * 16 + b1 / 16) as u8, ((b1 % 16) * 4 + b2 / 64) as u8, 2) == b1,
        pair_byte(((b1 % 16) * 4 + b2 / 64) as u8, (b2 % 64) as u8, 3) == b2,
        pair_byte(((b0 % 4) * 16 + b1 / 16) as u8, ((b1 % 16) * 4) as u8, 2) == b1,
{
    assert(((b0 / 4) * 4 + ((b0 % 4) * 16 + b1 / 16) / 16) == b0) by (nonlinear_arith);
    assert((((b0 % 4) * 16 + b1 / 16) % 16) * 16 + ((b1 % 16) * 4 + b2 / 64) / 4 == b1) by (nonlinear_arith);
    assert((((b1 % 16) * 4 + b2 / 64) % 4) * 64 + b2 % 64 == b2) by (nonlinear_arith);
    assert((((b0 % 4) * 16 + b1 / 16) % 16) * 16 + ((b1 % 16) * 4) / 4 == b1) by (nonlinear_arith);
}

proof fn lemma_emitted_encoded(bs: Seq<u8>)
    ensures
        emitted(encoded_sextets(bs)) == bs,
    decreases bs.len(),
{
    assert(emitted(Seq::<u8>::empty()) =~= Seq::<u8>::empty());
    if bs.len() == 0 {
        assert(encoded_sextets(bs) =~= Seq::<u8>::empty());
    } else if bs.len() == 1 {
        let vs = encoded_sextets(bs);
        lemma_group_bytes(bs[0], 0, 0);
        assert((bs[0] as int / 16) == 0 || true);
        assert(pair_byte(vs[0], vs[1], 1) == bs[0]) by (nonlinear_arith)
            requires
                vs[0] == (bs[0] / 4) as u8,
                vs[1] == ((bs[0] % 4) * 16) as u8,
        ;
        let v1 = seq![vs[0]];
        assert(vs.drop_last() =~= v1);
        assert(v1.drop_last() =~= Seq::<u8>::empty());
        assert(emitted(v1) =~= Seq::<u8>::empty());
        assert(emitted(vs) =~= seq![pair_byte(vs[0], vs[1], 1)]);
        assert(emitted(vs) =~= bs);
    } else if bs.len() == 2 {
        let vs = encoded_sextets(bs);
        lemma_group_bytes(bs[0], bs[1], 0);
        let v1 = seq![vs[0]];
        let v2 = seq![vs[0], vs[1]];
        assert(vs.drop_last() =~= v2);
        assert(v2.drop_last() =~= v1);
        assert(v1.drop_last() =~= Seq::<u8>::empty());
        assert(emitted(v1) =~= Seq::<u8>::empty());
        assert(emitted(v2) =~= seq![pair_byte(vs[0], vs[1], 1)]);
        assert(emitted(vs) =~= seq![pair_byte(vs[0], vs[1], 1), pair_byte(vs[1], vs[2], 2)]);
        assert(emitted(vs) =~= bs);
    } else {
        let head = seq![
            (bs[0] / 4) as u8,
            ((bs[0] % 4) * 16 + bs[1] / 16) as u8,
            ((bs[1] % 16) * 4 + bs[2] / 64) as u8,
            (bs[2] % 64) as u8,
        ];
        lemma_group_bytes(bs[0], bs[1], bs[2]);
        lemma_emitted_concat(head, encoded_sextets(bs.skip(3)));
        lemma_emitted_encoded(bs.skip(3));
        let h1 = seq![head[0]];
        let h2 = seq![head[0], head[1]];
        let h3 = seq![head[0], head[1], head[2]];
        assert(head.drop_last() =~= h3);
        assert(h3.drop_last() =~= h2);
        assert(h2.drop_last() =~= h1);
        assert(h1.drop_last() =~= Seq::<u8>::empty());
        assert(emitted(h1) =~= Seq::<u8>::empty());
        assert(emitted(h2) =~= seq![pair_byte(head[0], head[1], 1)]);
        assert(emitted(h3) =~= seq![pair_byte(head[0], head[1], 1), pair_byte(head[1], head[2], 2)]);
        assert(emitted(head) =~= seq![
            pair_byte(head[0], head[1], 1),
            pair_byte(head[1], head[2], 2),
            pair_byte(head[2], head[3], 3),
        ]);
        assert(emitted(head) =~= bs.take(3));
        assert(bs.take(3) + bs.skip(3) =~= bs);
    }
}

/// Decoding gives back what was encoded: the standard base64 text of any
/// bytes, padded or not, reads as sextets without refusal, and those
/// sextets give the bytes; so `decode_base64` of that text is `Ok(bs)`.
pub proof fn lemma_base64_round_trip(bs: Seq<u8>, padded: bool)
    ensures
        sextets(encoded_bytes(bs, padded)) == Ok::<Seq<u8>, u8>(encoded_sextets(bs)),
        emitted(encoded_sextets(bs)) == bs,
{
    lemma_encoded_small(bs);
    let vs = encoded_sextets(bs);
    let pad: nat = if padded && vs.len() % 4 != 0 {
        (4 - vs.len() % 4) as nat
    } else {
        0
    };
    lemma_sextets_of_alphabet(vs, pad);
    lemma_emitted_encoded(bs);
}

} // verus!
