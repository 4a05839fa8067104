//! Character and stage icons inside a Slippi Launcher install.
//!
//! The launcher's renderer bundle maps `./<character>/<color>/stock.png` and
//! `./<stage>.png` to numeric module ids, and holds asset modules of the form
//! `<id>(n,r,e){"use strict";n.exports=e.p+"<hash>.png"}`. The maps are read
//! from the bundle's text, key by key, and lead from a character or a stage to
//! the hashed file that holds its picture.
use vstd::prelude::*;
use vstd::utf8::encode_utf8;
use crate::gamedata::{character_name, character_text, stage_name, stage_text};
use crate::json::{document_view, member, parse_json, Json};
use crate::paths::{extension, extension_of, join, joined, PathStyle};
use crate::slippi::Platform;
use crate::text::{
    all_digits, decimal_round_trip, decimal_text, ends_with, finishes_with, is_digit, occurs_at,
    opt_text, parse_u64, parsed_natural, push_decimal, same, texts,
};
use crate::textmap::TextMap;

verus! {

broadcast use {vstd::string::group_string_axioms, vstd::utf8::char_is_scalar};

// ------------------------------------------------------------- bytes and text

/// The bytes of ASCII text.
pub open spec fn ascii(s: Seq<char>) -> Seq<u8> {
    Seq::new(s.len(), |i: int| s[i] as u8)
}

/// ASCII bytes as text.
pub open spec fn text(b: Seq<u8>) -> Seq<char> {
    Seq::new(b.len(), |i: int| b[i] as char)
}

pub open spec fn digit_byte(b: u8) -> bool {
    48 <= b <= 57
}

pub open spec fn hex_byte(b: u8) -> bool {
    48 <= b <= 57 || 65 <= b <= 70 || 97 <= b <= 102
}

/// Where the digits that end just before `end` start.
pub open spec fn digits_start(src: Seq<u8>, end: int) -> int
    decreases end,
{
    if 0 < end && digit_byte(src[end - 1]) {
        digits_start(src, end - 1)
    } else {
        end
    }
}

/// Where the digits that start at `start` end.
pub open spec fn digits_end(src: Seq<u8>, start: int) -> int
    decreases src.len() - start,
{
    if start < src.len() && digit_byte(src[start]) {
        digits_end(src, start + 1)
    } else {
        start
    }
}

/// The first place from `i` on where `needle` stands.
pub open spec fn first_at(src: Seq<u8>, needle: Seq<u8>, i: int) -> Option<int>
    decreases src.len() - i + 1,
{
    if i < 0 || i + needle.len() > src.len() {
        None
    } else if occurs_at(src, needle, i) {
        Some(i)
    } else {
        first_at(src, needle, i + 1)
    }
}

fn ascii_bytes(s: &str) -> (b: &[u8])
    requires
        s.is_ascii(),
    ensures
        b@ == ascii(s@),
{
    let b = s.as_bytes();
    assert(b@ =~= ascii(s@));
    b
}

/// The bytes `src[lo..hi]` as text.
fn text_between(src: &[u8], lo: usize, hi: usize) -> (s: String)
    requires
        lo <= hi <= src.len(),
    ensures
        s@ == text(src@.subrange(lo as int, hi as int)),
{
    let mut s = String::new();
    let mut i: usize = lo;
    while i < hi
        invariant
            lo <= i <= hi <= src.len(),
            s@ == text(src@.subrange(lo as int, i as int)),
        decreases hi - i,
    {
        s.push(src[i] as char);
        assert(text(src@.subrange(lo as int, i + 1)) =~= text(src@.subrange(lo as int, i as int)).push(src@[i as int] as char));
        i += 1;
    }
    s
}

fn bytes_match(src: &[u8], needle: &[u8], i: usize) -> (r: bool)
    ensures
        r == occurs_at(src@, needle@, i as int),
{
    if needle.len() > src.len() || i > src.len() - needle.len() {
        return false;
    }
    let mut k: usize = 0;
    while k < needle.len()
        invariant
            k <= needle.len(),
            i + needle.len() <= src.len(),
            forall|j: int| 0 <= j < k ==> src@[i + j] == needle@[j],
        decreases needle.len() - k,
    {
        if src[i + k] != needle[k] {
            assert(src@.subrange(i as int, i + needle.len())[k as int] != needle@[k as int]);
            return false;
        }
        k += 1;
    }
    assert(src@.subrange(i as int, i + needle.len()) =~= needle@);
    true
}

fn find_from(src: &[u8], needle: &[u8], from: usize) -> (r: Option<usize>)
    requires
        from <= src.len(),
        needle.len() > 0,
    ensures
        match r {
            Some(i) => first_at(src@, needle@, from as int) == Some(i as int) && from <= i && i
                + needle.len() <= src.len(),
            None => first_at(src@, needle@, from as int) is None,
        },
{
    let mut i: usize = from;
    while needle.len() <= src.len() - i
        invariant
            from <= i <= src.len(),
            needle.len() > 0,
            first_at(src@, needle@, from as int) == first_at(src@, needle@, i as int),
        decreases src.len() - i,
    {
        if bytes_match(src, needle, i) {
            return Some(i);
        }
        i += 1;
    }
    None
}

fn skip_digits_left(src: &[u8], end: usize) -> (s: usize)
    requires
        end <= src.len(),
    ensures
        s == digits_start(src@, end as int),
        s <= end,
{
    let mut s: usize = end;
    while s > 0 && src[s - 1] >= 48 && src[s - 1] <= 57
        invariant
            s <= end <= src.len(),
            digits_start(src@, end as int) == digits_start(src@, s as int),
        decreases s,
    {
        s -= 1;
    }
    s
}

/// Where the digits that start at `start` end.
fn skip_digits_right(src: &[u8], start: usize) -> (e: usize)
    requires
        start <= src.len(),
    ensures
        e == digits_end(src@, start as int),
        start <= e <= src.len(),
{
    let mut e: usize = start;
    while e < src.len() && src[e] >= 48 && src[e] <= 57
        invariant
            start <= e <= src.len(),
            digits_end(src@, start as int) == digits_end(src@, e as int),
        decreases src.len() - e,
    {
        e += 1;
    }
    e
}

fn all_hex(src: &[u8], lo: usize, hi: usize) -> (r: bool)
    requires
        lo <= hi <= src.len(),
    ensures
        r == (forall|i: int|
            0 <= i < hi - lo ==> hex_byte(#[trigger] src@.subrange(lo as int, hi as int)[i])),
{
    let ghost part = src@.subrange(lo as int, hi as int);
    let mut i: usize = lo;
    while i < hi
        invariant
            lo <= i <= hi <= src.len(),
            part == src@.subrange(lo as int, hi as int),
            forall|k: int| 0 <= k < i - lo ==> hex_byte(#[trigger] part[k]),
        decreases hi - i,
    {
        let b: u8 = src[i];
        if !((48 <= b && b <= 57) || (65 <= b && b <= 70) || (97 <= b && b <= 102)) {
            assert(!hex_byte(part[i - lo]));
            return false;
        }
        i += 1;
    }
    true
}

// ---------------------------------------------------------------- asset modules

/// Where the parameter list that ends at `pos` starts: the place behind the
/// nearest `(` to the left of `p`, no further than 40 bytes from `pos`.
pub open spec fn list_start(src: Seq<u8>, pos: int, p: int) -> int
    decreases p,
{
    if p > 0 && src[p - 1] != 40 && pos - p < 40 {
        list_start(src, pos, p - 1)
    } else {
        p
    }
}

/// The asset module whose body opens at `pos`: its id and its picture.
pub open spec fn asset_at(src: Seq<u8>, pos: int) -> Option<(Seq<char>, Seq<char>)> {
    let p = list_start(src, pos, pos);
    let from = pos + ascii("){\"use strict\";"@).len();
    if !occurs_at(src, ascii("){\"use strict\";"@), pos) || p == 0 || src[p - 1] != 40 || digits_start(
        src,
        p - 1,
    ) == p - 1 {
        None
    } else {
        match first_at(src, ascii(".p+\""@), from) {
            None => None,
            Some(q) => if q - from > 24 {
                None
            } else {
                match first_at(src, ascii(".png\""@), q + 4) {
                    None => None,
                    Some(e) => {
                        let hash = src.subrange(q + 4, e);
                        if hash.len() > 0 && (forall|i: int|
                            0 <= i < hash.len() ==> hex_byte(#[trigger] hash[i])) {
                            Some(
                                (
                                    text(src.subrange(digits_start(src, p - 1), p - 1)),
                                    text(hash) + ".png"@,
                                ),
                            )
                        } else {
                            None
                        }
                    },
                }
            },
        }
    }
}

/// `m` with what `at` finds at the places before `n` put in, place by place.
pub open spec fn gathered(
    at: spec_fn(int) -> Option<(Seq<char>, Seq<char>)>,
    n: int,
    m: Map<Seq<char>, Seq<char>>,
) -> Map<Seq<char>, Seq<char>>
    decreases n,
{
    if n <= 0 {
        m
    } else {
        match at(n - 1) {
            Some((k, v)) => gathered(at, n - 1, m).insert(k, v),
            None => gathered(at, n - 1, m),
        }
    }
}

/// A map of texts, with the texts as characters.
pub open spec fn plain(m: Map<Seq<char>, String>) -> Map<Seq<char>, Seq<char>> {
    m.map_values(|v: String| v@)
}

proof fn lemma_plain_insert(m: Map<Seq<char>, String>, k: Seq<char>, v: String)
    ensures
        plain(m.insert(k, v)) == plain(m).insert(k, v@),
{
    assert(plain(m.insert(k, v)) =~= plain(m).insert(k, v@));
}

/// The asset module whose body opens at `pos`.
fn read_asset(src: &[u8], pos: usize) -> (r: Option<(String, String)>)
    requires
        pos <= src.len(),
    ensures
        match r {
            Some((k, v)) => asset_at(src@, pos as int) == Some((k@, v@)),
            None => asset_at(src@, pos as int) is None,
        },
{
    proof {
        reveal_strlit("){\"use strict\";");
        reveal_strlit(".p+\"");
        reveal_strlit(".png\"");
    }
    let anchor = ascii_bytes("){\"use strict\";");
    if !bytes_match(src, anchor, pos) {
        return None;
    }
    let mut p: usize = pos;
    while p > 0 && src[p - 1] != 40 && pos - p < 40
        invariant
            p <= pos <= src.len(),
            list_start(src@, pos as int, pos as int) == list_start(src@, pos as int, p as int),
        decreases p,
    {
        p -= 1;
    }
    if p == 0 || src[p - 1] != 40 {
        return None;
    }
    let s: usize = skip_digits_left(src, p - 1);
    if s == p - 1 {
        return None;
    }
    let from: usize = pos + anchor.len();
    let q: usize = match find_from(src, ascii_bytes(".p+\""), from) {
        Some(q) => q,
        None => return None,
    };
    if q - from > 24 {
        return None;
    }
    let e: usize = match find_from(src, ascii_bytes(".png\""), q + 4) {
        Some(e) => e,
        None => return None,
    };
    if e == q + 4 || !all_hex(src, q + 4, e) {
        return None;
    }
    Some((text_between(src, s, p - 1), text_between(src, q + 4, e).concat(".png")))
}

// --------------------------------------------------------------- context keys

/// The entry `<character>/<color>/stock.png":<module>` whose `/stock.png` opens
/// at `pos`: the key `<character>/<color>` and the module id.
pub open spec fn stock_at(src: Seq<u8>, pos: int) -> Option<(Seq<char>, Seq<char>)> {
    let c = digits_start(src, pos);
    let e = digits_start(src, c - 1);
    let from = pos + ascii("/stock.png\":"@).len();
    if !occurs_at(src, ascii("/stock.png\":"@), pos) || c == pos || c == 0 || src[c - 1] != 47 || e
        == c - 1 || digits_end(src, from) == from {
        None
    } else {
        Some(
            (
                text(src.subrange(e, c - 1)) + "/"@ + text(src.subrange(c, pos)),
                text(src.subrange(from, digits_end(src, from))),
            ),
        )
    }
}

/// The entry `"./<stage>.png":<module>` whose `.png` opens at `pos`: the stage
/// and the module id.
pub open spec fn stage_at(src: Seq<u8>, pos: int) -> Option<(Seq<char>, Seq<char>)> {
    let k = digits_start(src, pos);
    let from = pos + ascii(".png\":"@).len();
    if !occurs_at(src, ascii(".png\":"@), pos) || k == pos || k < 3 || src[k - 1] != 47 || src[k - 2]
        != 46 || src[k - 3] != 34 || digits_end(src, from) == from {
        None
    } else {
        Some((text(src.subrange(k, pos)), text(src.subrange(from, digits_end(src, from)))))
    }
}

fn read_stock(src: &[u8], pos: usize) -> (r: Option<(String, String)>)
    requires
        pos <= src.len(),
    ensures
        match r {
            Some((k, v)) => stock_at(src@, pos as int) == Some((k@, v@)),
            None => stock_at(src@, pos as int) is None,
        },
{
    proof {
        reveal_strlit("/stock.png\":");
    }
    let anchor = ascii_bytes("/stock.png\":");
    if !bytes_match(src, anchor, pos) {
        return None;
    }
    let c: usize = skip_digits_left(src, pos);
    if c == pos || c == 0 || src[c - 1] != 47 {
        return None;
    }
    let e: usize = skip_digits_left(src, c - 1);
    if e == c - 1 {
        return None;
    }
    let from: usize = pos + anchor.len();
    let end: usize = skip_digits_right(src, from);
    if end == from {
        return None;
    }
    let mut key = text_between(src, e, c - 1);
    key.append("/");
    key.append(text_between(src, c, pos).as_str());
    Some((key, text_between(src, from, end)))
}

fn read_stage(src: &[u8], pos: usize) -> (r: Option<(String, String)>)
    requires
        pos <= src.len(),
    ensures
        match r {
            Some((k, v)) => stage_at(src@, pos as int) == Some((k@, v@)),
            None => stage_at(src@, pos as int) is None,
        },
{
    proof {
        reveal_strlit(".png\":");
    }
    let anchor = ascii_bytes(".png\":");
    if !bytes_match(src, anchor, pos) {
        return None;
    }
    let k: usize = skip_digits_left(src, pos);
    if k == pos || k < 3 || src[k - 1] != 47 || src[k - 2] != 46 || src[k - 3] != 34 {
        return None;
    }
    let from: usize = pos + anchor.len();
    let end: usize = skip_digits_right(src, from);
    if end == from {
        return None;
    }
    Some((text_between(src, k, pos), text_between(src, from, end)))
}

/// Scans the text of one script chunk and adds what it holds to the three maps:
/// module ids to pictures, characters and colors to module ids, and stages to
/// module ids. Of two entries with one key the later stays.
pub fn parse_chunk(
    chunk: &str,
    mod_to_file: &mut TextMap<String>,
    char_ctx: &mut TextMap<String>,
    stage_ctx: &mut TextMap<String>,
)
    requires
        old(mod_to_file).wf(),
        old(char_ctx).wf(),
        old(stage_ctx).wf(),
    ensures
        final(mod_to_file).wf(),
        final(char_ctx).wf(),
        final(stage_ctx).wf(),
        plain(final(mod_to_file)@) == gathered(
            |pos: int| asset_at(encode_utf8(chunk@), pos),
            encode_utf8(chunk@).len() as int,
            plain(old(mod_to_file)@),
        ),
        plain(final(char_ctx)@) == gathered(
            |pos: int| stock_at(encode_utf8(chunk@), pos),
            encode_utf8(chunk@).len() as int,
            plain(old(char_ctx)@),
        ),
        plain(final(stage_ctx)@) == gathered(
            |pos: int| stage_at(encode_utf8(chunk@), pos),
            encode_utf8(chunk@).len() as int,
            plain(old(stage_ctx)@),
        ),
{
    let src: &[u8] = chunk.as_bytes();
    let ghost assets = |pos: int| asset_at(src@, pos);
    let ghost stocks = |pos: int| stock_at(src@, pos);
    let ghost stages = |pos: int| stage_at(src@, pos);
    let mut pos: usize = 0;
    while pos < src.len()
        invariant
            pos <= src.len(),
            assets == (|pos: int| asset_at(src@, pos)),
            stocks == (|pos: int| stock_at(src@, pos)),
            stages == (|pos: int| stage_at(src@, pos)),
            mod_to_file.wf(),
            char_ctx.wf(),
            stage_ctx.wf(),
            plain(mod_to_file@) == gathered(assets, pos as int, plain(old(mod_to_file)@)),
            plain(char_ctx@) == gathered(stocks, pos as int, plain(old(char_ctx)@)),
            plain(stage_ctx@) == gathered(stages, pos as int, plain(old(stage_ctx)@)),
        decreases src.len() - pos,
    {
        match read_asset(src, pos) {
            Some((k, v)) => {
                proof {
                    lemma_plain_insert(mod_to_file@, k@, v);
                }
                mod_to_file.insert(k, v);
            },
            None => {},
        }
        match read_stock(src, pos) {
            Some((k, v)) => {
                proof {
                    lemma_plain_insert(char_ctx@, k@, v);
                }
                char_ctx.insert(k, v);
            },
            None => {},
        }
        match read_stage(src, pos) {
            Some((k, v)) => {
                proof {
                    lemma_plain_insert(stage_ctx@, k@, v);
                }
                stage_ctx.insert(k, v);
            },
            None => {},
        }
        pos += 1;
    }
}

// ------------------------------------------------------------------ the archive

/// A value of four bytes, the least first.
pub open spec fn le_u32(b: Seq<u8>, i: int) -> int {
    b[i] + b[i + 1] * 0x100 + b[i + 2] * 0x1_0000 + b[i + 3] * 0x100_0000
}

fn read_le_u32(b: &[u8; 16], i: usize) -> (n: u32)
    requires
        i <= 12,
    ensures
        n == le_u32(b@, i as int),
{
    b[i] as u32 + b[i + 1] as u32 * 0x100 + b[i + 2] as u32 * 0x1_0000 + b[i + 3] as u32 * 0x100_0000
}

/// The sizes at the front of an archive.
#[derive(Clone, Copy, Debug, PartialEq, Eq, Structural)]
pub struct Preamble {
    /// How many bytes of JSON follow the preamble.
    pub json_size: u32,
    /// Where the files of the archive start.
    pub data_offset: u64,
}

/// The preamble of an archive: four numbers of four bytes, of which the second
/// is the size of the header and the fourth that of its JSON. The files start
/// behind the header and the eight bytes before it.
pub fn read_preamble(pre: &[u8; 16]) -> (r: Preamble)
    ensures
        r.json_size == le_u32(pre@, 12),
        r.data_offset == 8 + le_u32(pre@, 4),
{
    Preamble { json_size: read_le_u32(pre, 12), data_offset: 8 + read_le_u32(pre, 4) as u64 }
}

/// The index of an `asar` archive.
pub struct Asar {
    pub tree: Json,
    pub data_offset: u64,
}

/// The node below `tree` that a path leads to, one directory at a time.
pub open spec fn descend(tree: Json, parts: Seq<Seq<char>>) -> Option<Json>
    decreases parts.len(),
{
    if parts.len() == 0 {
        Some(tree)
    } else {
        match member(tree, "files"@) {
            Some(files) => match member(files, parts[0]) {
                Some(node) => descend(node, parts.drop_first()),
                None => None,
            },
            None => None,
        }
    }
}

pub open spec fn str_texts(parts: Seq<&str>) -> Seq<Seq<char>> {
    parts.map_values(|p: &str| p@)
}

/// The names of the members of a node's `files`.
pub open spec fn names_in(node: Option<Json>) -> Seq<Seq<char>> {
    match node {
        Some(node) => match member(node, "files"@) {
            Some(Json::Object(v)) => v@.map_values(|e: (String, Json)| e.0@),
            _ => seq![],
        },
        None => seq![],
    }
}

/// Where the file of a node lies, and its size, where the node is a file: its
/// offset is decimal text, counted from the start of the files.
pub open spec fn extent_of(node: Option<Json>, data_offset: int) -> Option<(int, int)> {
    match node {
        Some(node) => match (member(node, "offset"@), member(node, "size"@)) {
            (Some(Json::Text(off)), Some(Json::Number(Some(size)))) => match parsed_natural(off@) {
                Some(n) => if data_offset + n <= u64::MAX {
                    Some((data_offset + n, size as int))
                } else {
                    None
                },
                None => None,
            },
            _ => None,
        },
        None => None,
    }
}

impl Asar {
    /// The index that the header's JSON holds.
    pub fn open(preamble: Preamble, header: &[u8]) -> (r: Option<Asar>)
        ensures
            match r {
                Some(a) => document_view(header@) == Some(a.tree@) && a.data_offset
                    == preamble.data_offset,
                None => document_view(header@) is None,
            },
    {
        match parse_json(header) {
            Some(tree) => Some(Asar { tree, data_offset: preamble.data_offset }),
            None => None,
        }
    }

    /// The node that a path leads to.
    pub fn node(&self, parts: &[&str]) -> (r: Option<&Json>)
        ensures
            match r {
                Some(j) => descend(self.tree, str_texts(parts@)) == Some(*j),
                None => descend(self.tree, str_texts(parts@)) is None,
            },
    {
        let ghost all = str_texts(parts@);
        let mut node = &self.tree;
        let mut i: usize = 0;
        assert(all.skip(0) =~= all);
        while i < parts.len()
            invariant
                all == str_texts(parts@),
                i <= parts.len(),
                descend(self.tree, all) == descend(*node, all.skip(i as int)),
            decreases parts.len() - i,
        {
            assert(all.skip(i as int)[0] == parts@[i as int]@);
            assert(all.skip(i as int).drop_first() =~= all.skip(i + 1));
            let files = match node.get("files") {
                Some(files) => files,
                None => {
                    return None;
                },
            };
            node = match files.get(parts[i]) {
                Some(next) => next,
                None => {
                    return None;
                },
            };
            i += 1;
        }
        Some(node)
    }

    /// The names directly under a path.
    pub fn listdir(&self, parts: &[&str]) -> (r: Vec<String>)
        ensures
            texts(r@) == names_in(descend(self.tree, str_texts(parts@))),
    {
        let mut out: Vec<String> = Vec::new();
        assert(texts(out@) =~= seq![]);
        let node = match self.node(parts) {
            Some(node) => node,
            None => {
                return out;
            },
        };
        match node.get("files") {
            Some(Json::Object(v)) => {
                let ghost all = v@.map_values(|e: (String, Json)| e.0@);
                let mut i: usize = 0;
                while i < v.len()
                    invariant
                        all == v@.map_values(|e: (String, Json)| e.0@),
                        i <= v.len(),
                        texts(out@) == all.take(i as int),
                    decreases v.len() - i,
                {
                    let ghost before = out@;
                    out.push(v[i].0.clone());
                    assert(texts(out@) =~= texts(before).push(all[i as int]));
                    assert(all.take(i + 1) =~= all.take(i as int).push(all[i as int]));
                    i += 1;
                }
                assert(all.take(i as int) =~= all);
                out
            },
            _ => out,
        }
    }

    /// Where the file at a path lies in the archive, and its size.
    pub fn extent(&self, parts: &[&str]) -> (r: Option<(u64, u64)>)
        ensures
            match r {
                Some((start, size)) => extent_of(
                    descend(self.tree, str_texts(parts@)),
                    self.data_offset as int,
                ) == Some((start as int, size as int)),
                None => extent_of(
                    descend(self.tree, str_texts(parts@)),
                    self.data_offset as int,
                ) is None,
            },
    {
        let node = match self.node(parts) {
            Some(node) => node,
            None => {
                return None;
            },
        };
        let off: u64 = match node.get("offset") {
            Some(Json::Text(s)) => match parse_u64(s.as_str()) {
                Some(n) => n,
                None => {
                    return None;
                },
            },
            _ => {
                return None;
            },
        };
        let size: u64 = match node.get("size") {
            Some(Json::Number(Some(n))) => *n,
            _ => {
                return None;
            },
        };
        if off > u64::MAX - self.data_offset {
            return None;
        }
        Some((self.data_offset + off, size))
    }
}

/// Whether a file of the bundle is a script.
pub fn is_script(name: &str) -> (r: bool)
    ensures
        r == finishes_with(name@, ".js"@),
{
    ends_with(name, ".js")
}

// ---------------------------------------------------------------- where it lies

fn push_under(out: &mut Vec<String>, style: PathStyle, base: &str, name: &str)
    ensures
        texts(final(out)@) == texts(old(out)@).push(joined(style, base@, name@)),
{
    let ghost before = out@;
    out.push(join(style, base, name));
    assert(texts(out@) =~= texts(before).push(joined(style, base@, name@)));
}

/// The three names that an archive may have under `root`.
pub open spec fn archives_under(style: PathStyle, root: Seq<char>) -> Seq<Seq<char>> {
    seq![
        joined(style, root, "app.asar"@),
        joined(style, root, "app-arm64.asar"@),
        joined(style, root, "app-x64.asar"@),
    ]
}

/// The three names that an archive may have under `root`, as an install on
/// Windows tells them apart.
pub open spec fn windows_archives_under(root: Seq<char>) -> Seq<Seq<char>> {
    seq![
        joined(PathStyle::Windows, root, "app.asar"@),
        joined(PathStyle::Windows, root, "app-x64.asar"@),
        joined(PathStyle::Windows, root, "app-arm64.asar"@),
    ]
}

/// The directories that may hold the launcher's resources on Windows: below
/// the user's programs, then below each directory of programs that is set.
pub open spec fn windows_roots(local: Option<Seq<char>>, programs: Seq<Seq<char>>) -> Seq<Seq<char>> {
    let user = match local {
        Some(local) => {
            let base = joined(PathStyle::Windows, local, "Programs"@);
            seq![
                joined(PathStyle::Windows, joined(PathStyle::Windows, base, "Slippi Launcher"@), "resources"@),
                joined(PathStyle::Windows, joined(PathStyle::Windows, base, "slippi-launcher"@), "resources"@),
            ]
        },
        None => seq![],
    };
    user + programs.map_values(
        |p: Seq<char>| joined(PathStyle::Windows, joined(PathStyle::Windows, p, "Slippi Launcher"@), "resources"@),
    )
}

pub open spec fn all_windows_archives(roots: Seq<Seq<char>>) -> Seq<Seq<char>>
    decreases roots.len(),
{
    if roots.len() == 0 {
        seq![]
    } else {
        all_windows_archives(roots.drop_last()) + windows_archives_under(roots.last())
    }
}

/// What the environment says of where programs are installed.
pub struct InstallDirs {
    /// The user's home directory.
    pub home: Option<String>,
    /// The user's local application data directory (Windows).
    pub local_app_data: Option<String>,
    /// The directories of programs that are set, in order (Windows).
    pub program_files: Vec<String>,
}

/// The places where the launcher's archive may lie, best first.
pub open spec fn archive_places(platform: Platform, dirs: InstallDirs) -> Seq<Seq<char>> {
    match platform {
        Platform::MacOs => archives_under(
            PathStyle::Unix,
            "/Applications/Slippi Launcher.app/Contents/Resources"@,
        ),
        Platform::Windows => all_windows_archives(
            windows_roots(opt_text(dirs.local_app_data), texts(dirs.program_files@)),
        ),
        _ => match dirs.home {
            Some(home) => seq![
                joined(PathStyle::Unix, home@, ".local/share/Slippi Launcher/resources/app.asar"@),
                "/opt/Slippi Launcher/resources/app.asar"@,
            ],
            None => seq![],
        },
    }
}

fn windows_resources(base: &str, dir: &str) -> (r: String)
    ensures
        r@ == joined(PathStyle::Windows, joined(PathStyle::Windows, base@, dir@), "resources"@),
{
    join(PathStyle::Windows, join(PathStyle::Windows, base, dir).as_str(), "resources")
}

fn windows_root_list(dirs: &InstallDirs) -> (roots: Vec<String>)
    ensures
        texts(roots@) == windows_roots(opt_text(dirs.local_app_data), texts(dirs.program_files@)),
{
    let mut roots: Vec<String> = Vec::new();
    match &dirs.local_app_data {
        Some(local) => {
            let base = join(PathStyle::Windows, local.as_str(), "Programs");
            roots.push(windows_resources(base.as_str(), "Slippi Launcher"));
            roots.push(windows_resources(base.as_str(), "slippi-launcher"));
        },
        None => {},
    }
    let ghost user = texts(roots@);
    let ghost all = texts(dirs.program_files@).map_values(
        |p: Seq<char>| joined(PathStyle::Windows, joined(PathStyle::Windows, p, "Slippi Launcher"@), "resources"@),
    );
    let mut i: usize = 0;
    while i < dirs.program_files.len()
        invariant
            i <= dirs.program_files.len(),
            all == texts(dirs.program_files@).map_values(
                |p: Seq<char>| joined(PathStyle::Windows, joined(PathStyle::Windows, p, "Slippi Launcher"@), "resources"@),
            ),
            texts(roots@) == user + all.take(i as int),
        decreases dirs.program_files.len() - i,
    {
        let ghost before = roots@;
        roots.push(windows_resources(dirs.program_files[i].as_str(), "Slippi Launcher"));
        assert(texts(roots@) =~= texts(before).push(all[i as int]));
        assert(user + all.take(i + 1) =~= (user + all.take(i as int)).push(all[i as int]));
        i += 1;
    }
    assert(all.take(i as int) =~= all);
    assert(texts(roots@) =~= windows_roots(opt_text(dirs.local_app_data), texts(dirs.program_files@)));
    roots
}

/// The places where the launcher's archive may lie, best first.
pub fn asar_candidates(platform: Platform, dirs: &InstallDirs) -> (r: Vec<String>)
    ensures
        texts(r@) == archive_places(platform, *dirs),
{
    let mut out: Vec<String> = Vec::new();
    match platform {
        Platform::MacOs => {
            let base = "/Applications/Slippi Launcher.app/Contents/Resources";
            push_under(&mut out, PathStyle::Unix, base, "app.asar");
            push_under(&mut out, PathStyle::Unix, base, "app-arm64.asar");
            push_under(&mut out, PathStyle::Unix, base, "app-x64.asar");
            assert(texts(out@) =~= archives_under(PathStyle::Unix, base@));
        },
        Platform::Windows => {
            let roots = windows_root_list(dirs);
            let ghost all = texts(roots@);
            let mut i: usize = 0;
            assert(all.take(0) =~= seq![]);
            assert(texts(out@) =~= seq![]);
            while i < roots.len()
                invariant
                    all == texts(roots@),
                    i <= roots.len(),
                    texts(out@) == all_windows_archives(all.take(i as int)),
                decreases roots.len() - i,
            {
                let ghost before = out@;
                let root = roots[i].as_str();
                out.push(join(PathStyle::Windows, root, "app.asar"));
                out.push(join(PathStyle::Windows, root, "app-x64.asar"));
                out.push(join(PathStyle::Windows, root, "app-arm64.asar"));
                assert(texts(out@) =~= texts(before) + windows_archives_under(all[i as int]));
                assert(all.take(i + 1).drop_last() =~= all.take(i as int));
                i += 1;
            }
            assert(all.take(i as int) =~= all);
        },
        _ => {
            match &dirs.home {
                Some(home) => {
                    push_under(
                        &mut out,
                        PathStyle::Unix,
                        home.as_str(),
                        ".local/share/Slippi Launcher/resources/app.asar",
                    );
                    let ghost first = out@;
                    out.push("/opt/Slippi Launcher/resources/app.asar".to_owned());
                    assert(texts(out@) =~= texts(first).push(
                        "/opt/Slippi Launcher/resources/app.asar"@,
                    ));
                },
                None => {},
            }
            assert(texts(out@) =~= archive_places(platform, *dirs));
        },
    }
    out
}

/// The first place that `present` marks.
pub open spec fn first_marked(places: Seq<Seq<char>>, present: Seq<bool>) -> Option<Seq<char>>
    decreases places.len(),
{
    if places.len() == 0 || present.len() == 0 {
        None
    } else if present[0] {
        Some(places[0])
    } else {
        first_marked(places.drop_first(), present.drop_first())
    }
}

/// The first of some places that is a file, where `present` says of each
/// whether it is.
pub fn find_asar(places: &Vec<String>, present: &Vec<bool>) -> (r: Option<String>)
    ensures
        opt_text(r) == first_marked(texts(places@), present@),
{
    let ghost all = texts(places@);
    let mut i: usize = 0;
    assert(all.skip(0) =~= all);
    assert(present@.skip(0) =~= present@);
    while i < places.len() && i < present.len()
        invariant
            all == texts(places@),
            i <= places.len(),
            i <= present.len(),
            first_marked(all, present@) == first_marked(all.skip(i as int), present@.skip(i as int)),
        decreases places.len() - i,
    {
        assert(all.skip(i as int)[0] == places@[i as int]@);
        assert(present@.skip(i as int)[0] == present@[i as int]);
        if present[i] {
            return Some(places[i].clone());
        }
        assert(all.skip(i as int).drop_first() =~= all.skip(i + 1));
        assert(present@.skip(i as int).drop_first() =~= present@.skip(i + 1));
        i += 1;
    }
    None
}

/// What stands at a path.
#[derive(Clone, Copy, Debug, PartialEq, Eq, Structural)]
pub enum PathKind {
    File,
    Directory,
    Missing,
}

/// The places below a directory where its archive may lie, best first: the
/// directory itself, a bundle's resources, and an install's resources.
pub open spec fn override_places(style: PathStyle, path: Seq<char>) -> Seq<Seq<char>> {
    archives_under(style, path) + archives_under(style, joined(style, joined(style, path, "Contents"@), "Resources"@))
        + archives_under(style, joined(style, path, "resources"@))
}

/// The places below a directory where its archive may lie, best first.
pub fn override_candidates(path: &str, style: PathStyle) -> (r: Vec<String>)
    ensures
        texts(r@) == override_places(style, path@),
{
    let bundle = join(style, join(style, path, "Contents").as_str(), "Resources");
    let install = join(style, path, "resources");
    let mut out: Vec<String> = Vec::new();
    push_under(&mut out, style, path, "app.asar");
    push_under(&mut out, style, path, "app-arm64.asar");
    push_under(&mut out, style, path, "app-x64.asar");
    push_under(&mut out, style, bundle.as_str(), "app.asar");
    push_under(&mut out, style, bundle.as_str(), "app-arm64.asar");
    push_under(&mut out, style, bundle.as_str(), "app-x64.asar");
    push_under(&mut out, style, install.as_str(), "app.asar");
    push_under(&mut out, style, install.as_str(), "app-arm64.asar");
    push_under(&mut out, style, install.as_str(), "app-x64.asar");
    assert(texts(out@) =~= override_places(style, path@));
    out
}

/// The archive that a path of the user's leads to: an archive leads to itself,
/// a directory to the first of its `override_candidates` that `present` marks
/// as a file.
pub fn resolve_launcher_override(
    path: &str,
    kind: PathKind,
    present: &Vec<bool>,
    style: PathStyle,
) -> (r: Option<String>)
    ensures
        opt_text(r) == (match kind {
            PathKind::File => if extension_of(style, path@) == Some("asar"@) {
                Some(path@)
            } else {
                None
            },
            PathKind::Directory => first_marked(override_places(style, path@), present@),
            PathKind::Missing => None,
        }),
{
    match kind {
        PathKind::File => match extension(style, path) {
            Some(e) => if same(e, "asar") {
                Some(path.to_owned())
            } else {
                None
            },
            None => None,
        },
        PathKind::Directory => find_asar(&override_candidates(path, style), present),
        PathKind::Missing => None,
    }
}

// ----------------------------------------------------------------- what to copy

/// The external id of an internal character id, where it has a stock icon.
pub open spec fn external_id(internal: int) -> Option<int> {
    if internal == 0 {
        Some(8)
    } else if internal == 1 {
        Some(2)
    } else if internal == 2 {
        Some(0)
    } else if internal == 3 {
        Some(1)
    } else if internal == 4 {
        Some(4)
    } else if internal == 5 {
        Some(5)
    } else if internal == 6 {
        Some(6)
    } else if internal == 7 {
        Some(19)
    } else if internal == 8 {
        Some(11)
    } else if internal == 9 {
        Some(12)
    } else if internal == 10 {
        Some(14)
    } else if internal == 11 {
        Some(14)
    } else if internal == 12 {
        Some(13)
    } else if internal == 13 {
        Some(16)
    } else if internal == 14 {
        Some(17)
    } else if internal == 15 {
        Some(15)
    } else if internal == 16 {
        Some(10)
    } else if internal == 17 {
        Some(7)
    } else if internal == 18 {
        Some(9)
    } else if internal == 19 {
        Some(18)
    } else if internal == 20 {
        Some(21)
    } else if internal == 21 {
        Some(22)
    } else if internal == 22 {
        Some(20)
    } else if internal == 23 {
        Some(24)
    } else if internal == 24 {
        Some(3)
    } else if internal == 25 {
        Some(25)
    } else if internal == 26 {
        Some(23)
    } else {
        None
    }
}

fn external(internal: i32) -> (r: Option<u128>)
    ensures
        match r {
            Some(e) => external_id(internal as int) == Some(e as int),
            None => external_id(internal as int) is None,
        },
{
    match internal {
        0 => Some(8),
        1 => Some(2),
        2 => Some(0),
        3 => Some(1),
        4 => Some(4),
        5 => Some(5),
        6 => Some(6),
        7 => Some(19),
        8 => Some(11),
        9 => Some(12),
        10 => Some(14),
        11 => Some(14),
        12 => Some(13),
        13 => Some(16),
        14 => Some(17),
        15 => Some(15),
        16 => Some(10),
        17 => Some(7),
        18 => Some(9),
        19 => Some(18),
        20 => Some(21),
        21 => Some(22),
        22 => Some(20),
        23 => Some(24),
        24 => Some(3),
        25 => Some(25),
        26 => Some(23),
        _ => None,
    }
}

/// A picture to copy out of the archive, and the name that it gets.
pub struct IconCopy {
    pub file: String,
    pub name: String,
}

pub open spec fn copies(v: Seq<IconCopy>) -> Seq<(Seq<char>, Seq<char>)> {
    v.map_values(|c: IconCopy| (c.file@, c.name@))
}

/// The picture of a key: the module of the key, then the file of the module.
pub open spec fn picture_of(
    key: Seq<char>,
    ctx: Map<Seq<char>, Seq<char>>,
    files: Map<Seq<char>, Seq<char>>,
) -> Option<Seq<char>> {
    if ctx.contains_key(key) && files.contains_key(ctx[key]) {
        Some(files[ctx[key]])
    } else {
        None
    }
}

/// The pictures of the characters before `n`, in their first color.
pub open spec fn character_copies(
    n: int,
    ctx: Map<Seq<char>, Seq<char>>,
    files: Map<Seq<char>, Seq<char>>,
) -> Seq<(Seq<char>, Seq<char>)>
    decreases n,
{
    if n <= 0 {
        seq![]
    } else {
        let before = character_copies(n - 1, ctx, files);
        match (external_id(n - 1), character_text(n - 1)) {
            (Some(e), Some(name)) => match picture_of(decimal_text(e as nat) + "/0"@, ctx, files) {
                Some(file) => before.push((file, name)),
                None => before,
            },
            _ => before,
        }
    }
}

/// The name of the stage that a key of the stage map stands for; the first two
/// stage ids are not stages to play on.
pub open spec fn stage_of_key(key: Seq<char>) -> Option<Seq<char>> {
    match parsed_natural(key) {
        Some(id) => if id >= 2 {
            stage_text(id as int)
        } else {
            None
        },
        None => None,
    }
}

/// The pictures of the stages that the keys stand for.
pub open spec fn stage_copies(
    keys: Seq<Seq<char>>,
    ctx: Map<Seq<char>, Seq<char>>,
    files: Map<Seq<char>, Seq<char>>,
) -> Seq<(Seq<char>, Seq<char>)>
    decreases keys.len(),
{
    if keys.len() == 0 {
        seq![]
    } else {
        let before = stage_copies(keys.drop_last(), ctx, files);
        match (stage_of_key(keys.last()), picture_of(keys.last(), ctx, files)) {
            (Some(name), Some(file)) => before.push((file, name)),
            _ => before,
        }
    }
}

fn picture<'a>(key: &str, ctx: &TextMap<String>, files: &'a TextMap<String>) -> (r: Option<
    &'a String,
>)
    requires
        ctx.wf(),
        files.wf(),
    ensures
        match r {
            Some(f) => picture_of(key@, plain(ctx@), plain(files@)) == Some(f@),
            None => picture_of(key@, plain(ctx@), plain(files@)) is None,
        },
{
    match ctx.get(key) {
        Some(module) => files.get(module.as_str()),
        None => None,
    }
}

/// The character icons to copy, by character.
pub fn plan_character_icons(char_ctx: &TextMap<String>, mod_to_file: &TextMap<String>) -> (r: Vec<
    IconCopy,
>)
    requires
        char_ctx.wf(),
        mod_to_file.wf(),
    ensures
        copies(r@) == character_copies(27, plain(char_ctx@), plain(mod_to_file@)),
{
    let mut out: Vec<IconCopy> = Vec::new();
    let mut i: i32 = 0;
    assert(copies(out@) =~= seq![]);
    while i < 27
        invariant
            0 <= i <= 27,
            char_ctx.wf(),
            mod_to_file.wf(),
            copies(out@) == character_copies(i as int, plain(char_ctx@), plain(mod_to_file@)),
        decreases 27 - i,
    {
        match (external(i), character_name(i)) {
            (Some(e), Some(name)) => {
                let mut key = String::new();
                push_decimal(&mut key, e);
                key.append("/0");
                assert(key@ =~= decimal_text(e as nat) + "/0"@);
                match picture(key.as_str(), char_ctx, mod_to_file) {
                    Some(file) => {
                        let ghost before = out@;
                        out.push(IconCopy { file: file.clone(), name: name.to_owned() });
                        assert(copies(out@) =~= copies(before).push((file@, name@)));
                    },
                    None => {},
                }
            },
            _ => {},
        }
        i += 1;
    }
    out
}

/// The stage icons to copy.
pub fn plan_stage_icons(stage_ctx: &TextMap<String>, mod_to_file: &TextMap<String>) -> (r: Vec<
    IconCopy,
>)
    requires
        stage_ctx.wf(),
        mod_to_file.wf(),
    ensures
        copies(r@) == stage_copies(stage_ctx.keys(), plain(stage_ctx@), plain(mod_to_file@)),
{
    let ghost keys = stage_ctx.keys();
    let mut out: Vec<IconCopy> = Vec::new();
    let mut i: usize = 0;
    let n: usize = stage_ctx.len();
    assert(copies(out@) =~= seq![]);
    assert(keys.take(0) =~= seq![]);
    while i < n
        invariant
            i <= n,
            n == keys.len(),
            keys == stage_ctx.keys(),
            stage_ctx.wf(),
            mod_to_file.wf(),
            copies(out@) == stage_copies(keys.take(i as int), plain(stage_ctx@), plain(mod_to_file@)),
        decreases n - i,
    {
        assert(keys.take(i + 1).drop_last() =~= keys.take(i as int));
        let key = stage_ctx.key_at(i);
        let name = match parse_u64(key) {
            Some(id) => if 2 <= id && id < 33 {
                stage_name(id as i32)
            } else {
                None
            },
            None => None,
        };
        match (name, picture(key, stage_ctx, mod_to_file)) {
            (Some(name), Some(file)) => {
                let ghost before = out@;
                out.push(IconCopy { file: file.clone(), name: name.to_owned() });
                assert(copies(out@) =~= copies(before).push((file@, name@)));
            },
            _ => {},
        }
        i += 1;
    }
    assert(keys.take(i as int) =~= keys);
    out
}

/// Why no icons were copied.
#[derive(Clone, Copy, Debug, PartialEq, Eq, Structural)]
pub enum ExtractError {
    NoInstall,
    NoRenderer,
    NoContext,
}

impl ExtractError {
    pub fn message(self) -> (s: &'static str)
        ensures
            s@ == (match self {
                ExtractError::NoInstall => "no Slippi Launcher install found"@,
                ExtractError::NoRenderer =>
                    "unexpected asar layout: no dist/renderer (Slippi version mismatch?)"@,
                ExtractError::NoContext =>
                    "no stock-icon context in the renderer bundle (Slippi asset layout changed)"@,
            }),
    {
        match self {
            ExtractError::NoInstall => "no Slippi Launcher install found",
            ExtractError::NoRenderer =>
                "unexpected asar layout: no dist/renderer (Slippi version mismatch?)",
            ExtractError::NoContext =>
                "no stock-icon context in the renderer bundle (Slippi asset layout changed)",
        }
    }
}

/// The names of the files of the renderer, which the archive keeps under
/// `dist/renderer`.
pub open spec fn renderer_names(tree: Json) -> Seq<Seq<char>> {
    names_in(descend(tree, seq!["dist"@, "renderer"@]))
}

impl Asar {
    /// The scripts of the renderer, where the archive has a renderer.
    pub fn scripts(&self) -> (r: Result<Vec<String>, ExtractError>)
        ensures
            match r {
                Ok(v) => renderer_names(self.tree).len() > 0 && texts(v@) == renderer_names(
                    self.tree,
                ).filter(|n: Seq<char>| finishes_with(n, ".js"@)),
                Err(e) => renderer_names(self.tree).len() == 0 && e == ExtractError::NoRenderer,
            },
    {
        let parts: [&str; 2] = ["dist", "renderer"];
        assert(str_texts(parts@) =~= seq!["dist"@, "renderer"@]);
        let names = self.listdir(&parts);
        let ghost all = renderer_names(self.tree);
        let ghost keep = |n: Seq<char>| finishes_with(n, ".js"@);
        assert(texts(names@) =~= all);
        assert(all.len() == names@.len());
        if names.len() == 0 {
            return Err(ExtractError::NoRenderer);
        }
        let mut out: Vec<String> = Vec::new();
        let mut i: usize = 0;
        proof {
            reveal(Seq::filter);
            assert(all.take(0).filter(keep) =~= seq![]);
            assert(texts(out@) =~= seq![]);
        }
        while i < names.len()
            invariant
                i <= names.len(),
                all == texts(names@),
                all.len() == names@.len(),
                keep == (|n: Seq<char>| finishes_with(n, ".js"@)),
                texts(out@) == all.take(i as int).filter(keep),
            decreases names.len() - i,
        {
            proof {
                reveal(Seq::filter);
                assert(all.take(i + 1).drop_last() =~= all.take(i as int));
                assert(all.take(i + 1).last() == names@[i as int]@);
            }
            if is_script(names[i].as_str()) {
                let ghost before = out@;
                out.push(names[i].clone());
                assert(texts(out@) =~= texts(before).push(names@[i as int]@));
            }
            i += 1;
        }
        assert(all.take(i as int) =~= all);
        Ok(out)
    }
}

/// Whether icons are to be extracted as the program starts: on its first
/// launch, when there are none yet.
pub fn extraction_is_due(have_icons: bool) -> (r: bool)
    ensures
        r == !have_icons,
{
    !have_icons
}

/// The archive to read: the one that the user's path leads to, else the one that
/// was found.
pub fn choose_asar(named: Option<String>, found: Option<String>) -> (r: Result<String, ExtractError>)
    ensures
        match (named, found) {
            (Some(p), _) => r == Ok::<String, ExtractError>(p),
            (None, Some(p)) => r == Ok::<String, ExtractError>(p),
            (None, None) => r == Err::<String, ExtractError>(ExtractError::NoInstall),
        },
{
    match named {
        Some(p) => Ok(p),
        None => match found {
            Some(p) => Ok(p),
            None => Err(ExtractError::NoInstall),
        },
    }
}

/// The icons to copy, of characters and of stages.
pub struct IconPlan {
    pub characters: Vec<IconCopy>,
    pub stages: Vec<IconCopy>,
}

/// The icons to copy, where the bundle names any character or stage.
pub fn plan_icons(
    char_ctx: &TextMap<String>,
    stage_ctx: &TextMap<String>,
    mod_to_file: &TextMap<String>,
) -> (r: Result<IconPlan, ExtractError>)
    requires
        char_ctx.wf(),
        stage_ctx.wf(),
        mod_to_file.wf(),
    ensures
        match r {
            Ok(plan) => {
                &&& char_ctx.keys().len() > 0 || stage_ctx.keys().len() > 0
                &&& copies(plan.characters@) == character_copies(
                    27,
                    plain(char_ctx@),
                    plain(mod_to_file@),
                )
                &&& copies(plan.stages@) == stage_copies(
                    stage_ctx.keys(),
                    plain(stage_ctx@),
                    plain(mod_to_file@),
                )
            },
            Err(e) => char_ctx.keys().len() == 0 && stage_ctx.keys().len() == 0 && e
                == ExtractError::NoContext,
        },
{
    if char_ctx.len() == 0 && stage_ctx.len() == 0 {
        return Err(ExtractError::NoContext);
    }
    Ok(
        IconPlan {
            characters: plan_character_icons(char_ctx, mod_to_file),
            stages: plan_stage_icons(stage_ctx, mod_to_file),
        },
    )
}

// ------------------------------------------------------------- laws of the scan

proof fn lemma_digits_start(src: Seq<u8>, end: int)
    requires
        0 <= end <= src.len(),
    ensures
        0 <= digits_start(src, end) <= end,
        forall|i: int| digits_start(src, end) <= i < end ==> digit_byte(#[trigger] src[i]),
        digits_start(src, end) > 0 ==> !digit_byte(src[digits_start(src, end) - 1]),
    decreases end,
{
    if 0 < end && digit_byte(src[end - 1]) {
        lemma_digits_start(src, end - 1);
    }
}

proof fn lemma_digits_end(src: Seq<u8>, start: int)
    requires
        0 <= start <= src.len(),
    ensures
        start <= digits_end(src, start) <= src.len(),
        forall|i: int| start <= i < digits_end(src, start) ==> digit_byte(#[trigger] src[i]),
        digits_end(src, start) < src.len() ==> !digit_byte(src[digits_end(src, start)]),
    decreases src.len() - start,
{
    if start < src.len() && digit_byte(src[start]) {
        lemma_digits_end(src, start + 1);
    }
}

/// A run of digits is taken whole: all of it is digits, and neither before nor
/// behind it stands another.
pub proof fn runs_of_digits_are_whole(src: Seq<u8>, at: int)
    requires
        0 <= at <= src.len(),
    ensures
        ({
            let (s, e) = (digits_start(src, at), digits_end(src, at));
            &&& 0 <= s <= at <= e <= src.len()
            &&& forall|i: int| s <= i < e ==> 48 <= #[trigger] src[i] <= 57
            &&& s > 0 ==> !(48 <= src[s - 1] <= 57)
            &&& e < src.len() ==> !(48 <= src[e] <= 57)
        }),
{
    lemma_digits_start(src, at);
    lemma_digits_end(src, at);
}

/// What is looked for is found at the first place where it stands, and is not
/// found only where it stands nowhere.
pub proof fn the_first_place_is_found(src: Seq<u8>, needle: Seq<u8>, i: int)
    requires
        0 <= i,
    ensures
        first_at(src, needle, i) matches Some(p) ==> i <= p && p + needle.len() <= src.len()
            && src.subrange(p, p + needle.len()) == needle && (forall|k: int|
            i <= k < p ==> src.subrange(k, k + needle.len()) != needle || !#[trigger] occurs_at(
                src,
                needle,
                k,
            )),
        first_at(src, needle, i) is None ==> forall|k: int|
            i <= k ==> !#[trigger] occurs_at(src, needle, k),
    decreases src.len() - i + 1,
{
    if i + needle.len() <= src.len() && !occurs_at(src, needle, i) {
        the_first_place_is_found(src, needle, i + 1);
    }
}

/// Whether bytes are digits, and there are some.
pub open spec fn is_number(b: Seq<u8>) -> bool {
    b.len() > 0 && forall|i: int| 0 <= i < b.len() ==> 48 <= #[trigger] b[i] <= 57
}

proof fn lemma_start_of_run(before: Seq<u8>, run: Seq<u8>, after: Seq<u8>)
    requires
        before.len() == 0 || !digit_byte(before.last()),
        forall|i: int| 0 <= i < run.len() ==> digit_byte(#[trigger] run[i]),
    ensures
        digits_start(before + run + after, (before.len() + run.len()) as int) == before.len(),
    decreases run.len(),
{
    let all = before + run + after;
    if run.len() > 0 {
        let less = run.drop_last();
        assert(all[before.len() + run.len() - 1] == run.last());
        assert(all =~= before + less + (seq![run.last()] + after));
        lemma_start_of_run(before, less, seq![run.last()] + after);
    } else if before.len() > 0 {
        assert(all[before.len() - 1] == before.last());
    }
}

proof fn lemma_end_of_run(before: Seq<u8>, run: Seq<u8>, after: Seq<u8>)
    requires
        after.len() == 0 || !digit_byte(after[0]),
        forall|i: int| 0 <= i < run.len() ==> digit_byte(#[trigger] run[i]),
    ensures
        digits_end(before + run + after, before.len() as int) == before.len() + run.len(),
    decreases run.len(),
{
    let all = before + run + after;
    if run.len() > 0 {
        let less = run.drop_first();
        assert(all[before.len() as int] == run[0]);
        assert(all =~= before.push(run[0]) + less + after);
        lemma_end_of_run(before.push(run[0]), less, after);
    } else if after.len() > 0 {
        assert(all[before.len() as int] == after[0]);
    }
}

/// The entry of a stock icon reads back: its character and color, and its
/// module.
pub proof fn stock_entries_read_back(
    before: Seq<u8>,
    character: Seq<u8>,
    color: Seq<u8>,
    module: Seq<u8>,
    after: Seq<u8>,
)
    requires
        before.len() == 0 || !(48 <= before.last() <= 57),
        after.len() == 0 || !(48 <= after[0] <= 57),
        is_number(character),
        is_number(color),
        is_number(module),
    ensures
        ({
            let src = before + character + ascii("/"@) + color + ascii("/stock.png\":"@) + module
                + after;
            let pos = (before.len() + character.len() + 1 + color.len()) as int;
            stock_at(src, pos) == Some((text(character) + "/"@ + text(color), text(module)))
        }),
{
    reveal_strlit("/");
    reveal_strlit("/stock.png\":");
    let anchor = ascii("/stock.png\":"@);
    let slash = ascii("/"@);
    let src = before + character + slash + color + anchor + module + after;
    let pos = (before.len() + character.len() + 1 + color.len()) as int;
    let c = (before.len() + character.len() + 1) as int;
    let from = pos + anchor.len();
    assert(slash.len() == 1 && slash[0] == 47);
    let front = before + character + slash;
    assert(src =~= front + color + (anchor + module + after));
    lemma_start_of_run(front, color, anchor + module + after);
    assert(src =~= before + character + (slash + color + anchor + module + after));
    lemma_start_of_run(before, character, slash + color + anchor + module + after);
    let head = front + color + anchor;
    assert(src =~= head + module + after);
    lemma_end_of_run(head, module, after);
    assert(src.subrange(pos, pos + anchor.len()) =~= anchor);
    assert(src[c - 1] == 47);
    assert(src.subrange(before.len() as int, c - 1) =~= character);
    assert(src.subrange(c, pos) =~= color);
    assert(src.subrange(from, from + module.len()) =~= module);
}

/// The entry of a stage reads back: its id and its module.
pub proof fn stage_entries_read_back(
    before: Seq<u8>,
    stage: Seq<u8>,
    module: Seq<u8>,
    after: Seq<u8>,
)
    requires
        after.len() == 0 || !(48 <= after[0] <= 57),
        is_number(stage),
        is_number(module),
    ensures
        ({
            let src = before + ascii("\"./"@) + stage + ascii(".png\":"@) + module + after;
            stage_at(src, (before.len() + 3 + stage.len()) as int) == Some((text(stage), text(module)))
        }),
{
    reveal_strlit("\"./");
    reveal_strlit(".png\":");
    let open = ascii("\"./"@);
    let anchor = ascii(".png\":"@);
    let src = before + open + stage + anchor + module + after;
    let k = (before.len() + 3) as int;
    let pos = (before.len() + 3 + stage.len()) as int;
    let from = pos + anchor.len();
    assert(open.len() == 3 && open[0] == 34 && open[1] == 46 && open[2] == 47);
    let front = before + open;
    assert(src =~= front + stage + (anchor + module + after));
    assert(front.last() == 47);
    lemma_start_of_run(front, stage, anchor + module + after);
    let head = front + stage + anchor;
    assert(src =~= head + module + after);
    lemma_end_of_run(head, module, after);
    assert(src.subrange(pos, pos + anchor.len()) =~= anchor);
    assert(src[k - 1] == 47 && src[k - 2] == 46 && src[k - 3] == 34);
    assert(src.subrange(k, pos) =~= stage);
    assert(src.subrange(from, from + module.len()) =~= module);
}

/// What is read at a place stands around it: digits on both sides of the words
/// that mark an entry.
pub proof fn entries_stand_around_their_mark(src: Seq<u8>, pos: int)
    requires
        0 <= pos,
    ensures
        stock_at(src, pos) is Some ==> occurs_at(src, ascii("/stock.png\":"@), pos) && pos > 0
            && digit_byte(src[pos - 1]),
        stage_at(src, pos) is Some ==> occurs_at(src, ascii(".png\":"@), pos) && pos > 0
            && digit_byte(src[pos - 1]),
        stage_at(src, pos) matches Some((k, _)) ==> k.len() > 0 && all_digits(k),
{
    if stage_at(src, pos) is Some {
        let k = digits_start(src, pos);
        lemma_digits_start(src, pos);
        let t = text(src.subrange(k, pos));
        assert forall|i: int| 0 <= i < t.len() implies is_digit(#[trigger] t[i]) by {
            assert(digit_byte(src[k + i]));
        }
    }
}

proof fn lemma_list_start(src: Seq<u8>, pos: int, open: int, p: int)
    requires
        0 <= open < p <= pos <= src.len(),
        pos - open <= 40,
        src[open] == 40,
        forall|i: int| open < i < p ==> #[trigger] src[i] != 40,
    ensures
        list_start(src, pos, p) == open + 1,
    decreases p,
{
    if p > open + 1 {
        assert(src[p - 1] != 40);
        lemma_list_start(src, pos, open, p - 1);
    }
}

proof fn lemma_first_at(src: Seq<u8>, needle: Seq<u8>, from: int, at: int)
    requires
        0 <= from <= at,
        needle.len() > 1,
        occurs_at(src, needle, at),
        forall|i: int|
            from <= i < at ==> !(#[trigger] src[i] == needle[0] && src[i + 1] == needle[1]),
    ensures
        first_at(src, needle, from) == Some(at),
    decreases at - from,
{
    if from < at {
        if occurs_at(src, needle, from) {
            assert(src.subrange(from, from + needle.len())[0] == src[from]);
            assert(src.subrange(from, from + needle.len())[1] == src[from + 1]);
        }
        lemma_first_at(src, needle, from + 1, at);
    }
}

/// An asset module reads back: its id, which stands before its parameters, and
/// its picture, which its body names. The parameters hold no `(`, and what
/// stands before `.p+"` holds no `.p`.
pub proof fn asset_modules_read_back(
    before: Seq<u8>,
    id: Seq<u8>,
    params: Seq<u8>,
    gap: Seq<u8>,
    hash: Seq<u8>,
    after: Seq<u8>,
)
    requires
        before.len() == 0 || !(48 <= before.last() <= 57),
        is_number(id),
        params.len() < 40,
        forall|i: int| 0 <= i < params.len() ==> #[trigger] params[i] != 40,
        gap.len() <= 24,
        forall|i: int| 0 <= i < gap.len() - 1 ==> !(#[trigger] gap[i] == 46 && gap[i + 1] == 112),
        hash.len() > 0,
        forall|i: int| 0 <= i < hash.len() ==> hex_byte(#[trigger] hash[i]),
    ensures
        ({
            let src = before + id + ascii("("@) + params + ascii("){\"use strict\";"@) + gap + ascii(
                ".p+\""@,
            ) + hash + ascii(".png\""@) + after;
            asset_at(src, (before.len() + id.len() + 1 + params.len()) as int) == Some(
                (text(id), text(hash) + ".png"@),
            )
        }),
{
    reveal_strlit("(");
    reveal_strlit("){\"use strict\";");
    reveal_strlit(".p+\"");
    reveal_strlit(".png\"");
    let (paren, body, name, ending) = (
        ascii("("@),
        ascii("){\"use strict\";"@),
        ascii(".p+\""@),
        ascii(".png\""@),
    );
    assert(paren.len() == 1 && paren[0] == 40);
    assert(name.len() == 4 && name[0] == 46 && name[1] == 112);
    assert(ending.len() == 5 && ending[0] == 46 && ending[1] == 112);
    let src = before + id + paren + params + body + gap + name + hash + ending + after;
    let open = (before.len() + id.len()) as int;
    let pos = open + 1 + params.len();
    let from = pos + body.len();
    let q = from + gap.len();
    let e = q + 4 + hash.len();
    assert(src[open] == 40);
    assert forall|i: int| open < i < pos implies #[trigger] src[i] != 40 by {
        assert(src[i] == params[i - open - 1]);
    }
    lemma_list_start(src, pos, open, pos);
    assert(src =~= before + id + (paren + params + body + gap + name + hash + ending + after));
    lemma_start_of_run(before, id, paren + params + body + gap + name + hash + ending + after);
    assert(src.subrange(pos, pos + body.len()) =~= body);
    assert(src.subrange(q, q + name.len()) =~= name);
    assert(src.subrange(e, e + ending.len()) =~= ending);
    assert forall|i: int| from <= i < q implies !(#[trigger] src[i] == name[0] && src[i + 1]
        == name[1]) by {
        assert(src[i] == gap[i - from]);
        if i + 1 < q {
            assert(src[i + 1] == gap[i + 1 - from]);
        } else {
            assert(src[q] == name[0]);
        }
    }
    lemma_first_at(src, name, from, q);
    assert forall|i: int| q + 4 <= i < e implies !(#[trigger] src[i] == ending[0] && src[i + 1]
        == ending[1]) by {
        assert(src[i] == hash[i - q - 4]);
        assert(hex_byte(hash[i - q - 4]));
    }
    lemma_first_at(src, ending, q + 4, e);
    assert(src.subrange(q + 4, e) =~= hash);
    assert(src.subrange(before.len() as int, open) =~= id);
}

/// What was gathered has what was there before and what was found at any place;
/// of two entries with one key the later one stays.
pub proof fn later_entries_stay(
    at: spec_fn(int) -> Option<(Seq<char>, Seq<char>)>,
    n: int,
    m: Map<Seq<char>, Seq<char>>,
    key: Seq<char>,
)
    ensures
        forall|i: int|
            0 <= i < n && (#[trigger] at(i) matches Some((k, _)) && k == key) && (forall|j: int|
                i < j < n ==> !(#[trigger] at(j) matches Some((k, _)) && k == key)) ==> gathered(
                at,
                n,
                m,
            ).contains_key(key) && gathered(at, n, m)[key] == (at(i)->0).1,
        (forall|i: int| 0 <= i < n ==> !(#[trigger] at(i) matches Some((k, _)) && k == key)) ==> (gathered(
            at,
            n,
            m,
        ).contains_key(key) <==> m.contains_key(key)) && (m.contains_key(key) ==> gathered(at, n, m)[key]
            == m[key]),
    decreases n,
{
    if n > 0 {
        later_entries_stay(at, n - 1, m, key);
        assert forall|i: int|
            0 <= i < n && (#[trigger] at(i) matches Some((k, _)) && k == key) && (forall|j: int|
                i < j < n ==> !(#[trigger] at(j) matches Some((k, _)) && k == key)) implies gathered(
            at,
            n,
            m,
        ).contains_key(key) && gathered(at, n, m)[key] == (at(i)->0).1 by {
            if i < n - 1 {
                assert(!(at(n - 1) matches Some((k, _)) && k == key));
            }
        }
    }
}

// ---------------------------------------------------------- laws of the archive

/// A value of four bytes is below two to the thirty-second; the first byte
/// counts once and every other 256 times the one before it.
pub proof fn four_bytes_make_a_value(a: u8, b: u8, c: u8, d: u8)
    ensures
        le_u32(seq![a, b, c, d], 0) == a + 256 * (b + 256 * (c + 256 * d)),
        0 <= le_u32(seq![a, b, c, d], 0) < 0x1_0000_0000,
{
}

/// A path leads on from where its first part leads, and each step goes through
/// the files of a node.
pub proof fn paths_lead_on(tree: Json, a: Seq<Seq<char>>, b: Seq<Seq<char>>)
    ensures
        descend(tree, a + b) == (match descend(tree, a) {
            Some(node) => descend(node, b),
            None => None,
        }),
        descend(tree, seq![]) == Some(tree),
    decreases a.len(),
{
    if a.len() > 0 {
        assert((a + b)[0] == a[0]);
        assert((a + b).drop_first() =~= a.drop_first() + b);
        match member(tree, "files"@) {
            Some(files) => match member(files, a[0]) {
                Some(node) => {
                    paths_lead_on(node, a.drop_first(), b);
                },
                None => {},
            },
            None => {},
        }
    } else {
        assert(a + b =~= b);
    }
}

/// One step of a path leads to the member of that name among the files.
pub proof fn steps_go_through_the_files(tree: Json, files: Json, name: Seq<char>)
    requires
        member(tree, "files"@) == Some(files),
    ensures
        descend(tree, seq![name]) == member(files, name),
{
    reveal_with_fuel(descend, 2);
    assert(seq![name].drop_first() =~= Seq::<Seq<char>>::empty());
}

/// A file lies as far behind the start of the files as its node says, and has
/// the size that it says; a node that lacks either is no file.
pub proof fn files_lie_behind_the_start(node: Json, offset: String, size: u64, data_offset: int)
    requires
        0 <= data_offset,
    ensures
        member(node, "offset"@) == Some(Json::Text(offset)) && member(node, "size"@) == Some(
            Json::Number(Some(size)),
        ) ==> (extent_of(Some(node), data_offset) matches Some((start, n)) ==> n == size && Some(
            (start - data_offset) as nat,
        ) == parsed_natural(offset@)) && (extent_of(Some(node), data_offset) is None
            <==> parsed_natural(offset@) is None || data_offset + parsed_natural(offset@)->0
            > u64::MAX),
        !(member(node, "offset"@) matches Some(Json::Text(_))) ==> extent_of(Some(node), data_offset) is None,
        !(member(node, "size"@) matches Some(Json::Number(Some(_)))) ==> extent_of(
            Some(node),
            data_offset,
        ) is None,
        extent_of(None, data_offset) is None,
{
}

// ------------------------------------------------------ laws of where it lies

/// The first place that is a file is taken, and none only where none is.
pub proof fn the_first_file_is_taken(places: Seq<Seq<char>>, present: Seq<bool>)
    requires
        places.len() == present.len(),
    ensures
        first_marked(places, present) is None <==> forall|i: int|
            0 <= i < present.len() ==> !#[trigger] present[i],
        forall|i: int|
            0 <= i < present.len() && #[trigger] present[i] && (forall|j: int|
                0 <= j < i ==> !#[trigger] present[j]) ==> first_marked(places, present) == Some(
                places[i],
            ),
    decreases places.len(),
{
    if places.len() > 0 {
        let (p, q) = (places.drop_first(), present.drop_first());
        the_first_file_is_taken(p, q);
        assert forall|i: int| 0 <= i < q.len() implies #[trigger] q[i] == present[i + 1] by {}
        if !present[0] {
            assert forall|i: int|
                0 <= i < present.len() && #[trigger] present[i] && (forall|j: int|
                    0 <= j < i ==> !#[trigger] present[j]) implies first_marked(places, present) == Some(
                places[i],
            ) by {
                assert(q[i - 1] == present[i]);
                assert(p[i - 1] == places[i]);
                assert forall|j: int| 0 <= j < i - 1 implies !#[trigger] q[j] by {
                    assert(!present[j + 1]);
                }
            }
            if first_marked(places, present) is None {
                assert forall|i: int| 0 <= i < present.len() implies !#[trigger] present[i] by {
                    if i > 0 {
                        assert(q[i - 1] == present[i]);
                    }
                }
            }
            if forall|i: int| 0 <= i < present.len() ==> !#[trigger] present[i] {
                assert forall|i: int| 0 <= i < q.len() implies !#[trigger] q[i] by {
                    assert(!present[i + 1]);
                }
            }
        }
    }
}

/// An install on Windows has the same three archives as any, with the one for
/// its usual processors before the other; the plain one always comes first.
pub proof fn archives_are_told_apart(root: Seq<char>, style: PathStyle)
    ensures
        archives_under(style, root).len() == 3,
        windows_archives_under(root).len() == 3,
        archives_under(style, root)[0] == joined(style, root, "app.asar"@),
        windows_archives_under(root)[0] == archives_under(PathStyle::Windows, root)[0],
        windows_archives_under(root)[1] == archives_under(PathStyle::Windows, root)[2],
        windows_archives_under(root)[2] == archives_under(PathStyle::Windows, root)[1],
{
}

/// The archives of some roots and some more are those of the first and then
/// those of the others.
pub proof fn archives_follow_the_roots(a: Seq<Seq<char>>, b: Seq<Seq<char>>, root: Seq<char>)
    ensures
        all_windows_archives(a + b) == all_windows_archives(a) + all_windows_archives(b),
        all_windows_archives(seq![root]) == windows_archives_under(root),
        all_windows_archives(seq![]).len() == 0,
    decreases b.len(),
{
    reveal_with_fuel(all_windows_archives, 2);
    assert(seq![root].drop_last() =~= Seq::<Seq<char>>::empty());
    assert(seq![root].last() == root);
    assert(all_windows_archives(seq![root]) =~= windows_archives_under(root));
    if b.len() > 0 {
        archives_follow_the_roots(a, b.drop_last(), root);
        assert((a + b).drop_last() =~= a + b.drop_last());
        assert((a + b).last() == b.last());
        assert(all_windows_archives(a + b) =~= all_windows_archives(a) + all_windows_archives(b));
    } else {
        assert(a + b =~= a);
        assert(all_windows_archives(a) + Seq::<Seq<char>>::empty() =~= all_windows_archives(a));
    }
}

/// The user's own programs are looked into before those of all users, and each
/// directory of programs has one place.
pub proof fn own_programs_come_first(local: Option<Seq<char>>, a: Seq<Seq<char>>, b: Seq<Seq<char>>)
    ensures
        windows_roots(local, a + b) == windows_roots(local, a) + windows_roots(None, b),
        windows_roots(None, a).len() == a.len(),
        local is Some ==> windows_roots(local, a).len() == a.len() + 2,
        local is Some ==> windows_roots(local, a).skip(2) == windows_roots(None, a),
{
    assert(windows_roots(local, a + b) =~= windows_roots(local, a) + windows_roots(None, b));
    if local is Some {
        assert(windows_roots(local, a).skip(2) =~= windows_roots(None, a));
    }
}

/// A directory is looked into itself before what lies below it, and below it in
/// the same way: as a bundle, then as an install.
pub proof fn directories_are_looked_into_first(style: PathStyle, path: Seq<char>)
    ensures
        override_places(style, path).len() == 9,
        override_places(style, path).take(3) == archives_under(style, path),
        override_places(style, path).subrange(3, 6) == archives_under(
            style,
            joined(style, joined(style, path, "Contents"@), "Resources"@),
        ),
        override_places(style, path).skip(6) == archives_under(
            style,
            joined(style, path, "resources"@),
        ),
{
    assert(override_places(style, path).take(3) =~= archives_under(style, path));
    assert(override_places(style, path).subrange(3, 6) =~= archives_under(
        style,
        joined(style, joined(style, path, "Contents"@), "Resources"@),
    ));
    assert(override_places(style, path).skip(6) =~= archives_under(
        style,
        joined(style, path, "resources"@),
    ));
}

/// Where the archive is looked for depends on the platform and, of what is
/// known of the machine, on what belongs to it: nothing on macOS, the home
/// directory on Linux.
pub proof fn platforms_look_in_their_own_places(a: InstallDirs, b: InstallDirs)
    ensures
        archive_places(Platform::MacOs, a) == archive_places(Platform::MacOs, b),
        opt_text(a.home) == opt_text(b.home) ==> archive_places(Platform::Linux, a)
            == archive_places(Platform::Linux, b),
        archive_places(Platform::Unknown, a) == archive_places(Platform::Linux, a),
        a.home is None ==> archive_places(Platform::Linux, a).len() == 0,
        a.home is Some ==> archive_places(Platform::Linux, a).len() == 2,
        opt_text(a.local_app_data) == opt_text(b.local_app_data) && texts(a.program_files@) == texts(
            b.program_files@,
        ) ==> archive_places(Platform::Windows, a) == archive_places(Platform::Windows, b),
{
}

// --------------------------------------------------------- laws of what to copy

/// Every character that can be played has an external id of its own, but for the
/// two climbers, who share one.
pub proof fn external_ids_are_distinct(a: int, b: int)
    ensures
        external_id(a) is Some && external_id(a) == external_id(b) && a < b ==> a == 10 && b == 11,
        external_id(10) == external_id(11),
        external_id(a) is Some <==> 0 <= a <= 26,
        external_id(a) matches Some(e) ==> 0 <= e <= 25,
{
}

/// A picture is found through the module that its key names, and only there.
pub proof fn pictures_are_found_through_their_module(
    key: Seq<char>,
    ctx: Map<Seq<char>, Seq<char>>,
    files: Map<Seq<char>, Seq<char>>,
)
    ensures
        picture_of(key, ctx, files) is Some <==> ctx.contains_key(key) && files.contains_key(ctx[key]),
        picture_of(key, ctx, files) is Some ==> picture_of(key, ctx, files)->0 == files[ctx[key]],
{
}

/// Every character with an external id whose first color has a picture gets it,
/// under its own name.
pub proof fn characters_get_their_first_color(
    n: int,
    ctx: Map<Seq<char>, Seq<char>>,
    files: Map<Seq<char>, Seq<char>>,
    i: int,
)
    requires
        0 <= i < n,
        external_id(i) is Some,
        character_text(i) is Some,
        ctx.contains_key(decimal_text(external_id(i)->0 as nat) + "/0"@),
        files.contains_key(ctx[decimal_text(external_id(i)->0 as nat) + "/0"@]),
    ensures
        character_copies(n, ctx, files).contains(
            (files[ctx[decimal_text(external_id(i)->0 as nat) + "/0"@]], character_text(i)->0),
        ),
    decreases n,
{
    let all = character_copies(n, ctx, files);
    let c = (files[ctx[decimal_text(external_id(i)->0 as nat) + "/0"@]], character_text(i)->0);
    if i == n - 1 {
        assert(all.last() == c);
    } else {
        characters_get_their_first_color(n - 1, ctx, files, i);
        let before = character_copies(n - 1, ctx, files);
        let k = choose|k: int| 0 <= k < before.len() && before[k] == c;
        assert(all[k] == c);
    }
}

/// Every copy of a character's picture is one that a character gets.
pub proof fn character_copies_are_of_characters(
    n: int,
    ctx: Map<Seq<char>, Seq<char>>,
    files: Map<Seq<char>, Seq<char>>,
    k: int,
) -> (i: int)
    requires
        0 <= k < character_copies(n, ctx, files).len(),
    ensures
        0 <= i < n,
        external_id(i) is Some,
        character_copies(n, ctx, files)[k] == (
            files[ctx[decimal_text(external_id(i)->0 as nat) + "/0"@]],
            character_text(i)->0,
        ),
        character_copies(n, ctx, files).len() <= n,
    decreases n,
{
    let before = character_copies(n - 1, ctx, files);
    if k < before.len() {
        let i = character_copies_are_of_characters(n - 1, ctx, files, k);
        i
    } else {
        if before.len() > 0 {
            let _ = character_copies_are_of_characters(n - 1, ctx, files, 0);
        }
        n - 1
    }
}

/// A key of the stage map stands for the stage of that id; the first two ids,
/// and what is no id, stand for none.
pub proof fn stage_keys_are_ids(id: nat)
    ensures
        2 <= id ==> stage_of_key(decimal_text(id)) == stage_text(id as int),
        id < 2 ==> stage_of_key(decimal_text(id)) is None,
{
    decimal_round_trip(id);
    let d = decimal_text(id);
    assert(is_digit(d[0]));
}

/// The pictures of the stages of some keys and some more are those of the first
/// and then those of the others; a key has at most one.
pub proof fn stage_copies_follow_the_keys(
    xs: Seq<Seq<char>>,
    ys: Seq<Seq<char>>,
    key: Seq<char>,
    ctx: Map<Seq<char>, Seq<char>>,
    files: Map<Seq<char>, Seq<char>>,
)
    ensures
        stage_copies(xs + ys, ctx, files) == stage_copies(xs, ctx, files) + stage_copies(
            ys,
            ctx,
            files,
        ),
        stage_of_key(key) is Some && ctx.contains_key(key) && files.contains_key(ctx[key])
            ==> stage_copies(seq![key], ctx, files) == seq![(files[ctx[key]], stage_of_key(key)->0)],
        stage_of_key(key) is None || !ctx.contains_key(key) || !files.contains_key(ctx[key])
            ==> stage_copies(seq![key], ctx, files).len() == 0,
    decreases ys.len(),
{
    reveal_with_fuel(stage_copies, 2);
    assert(seq![key].drop_last() =~= Seq::<Seq<char>>::empty());
    assert(seq![key].last() == key);
    if ys.len() > 0 {
        stage_copies_follow_the_keys(xs, ys.drop_last(), key, ctx, files);
        assert((xs + ys).drop_last() =~= xs + ys.drop_last());
        assert((xs + ys).last() == ys.last());
        assert(stage_copies(xs + ys, ctx, files) =~= stage_copies(xs, ctx, files) + stage_copies(
            ys,
            ctx,
            files,
        ));
    } else {
        assert(xs + ys =~= xs);
        assert(stage_copies(xs, ctx, files) + Seq::<(Seq<char>, Seq<char>)>::empty()
            =~= stage_copies(xs, ctx, files));
    }
}

} // verus!
