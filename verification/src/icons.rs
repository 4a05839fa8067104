//! Character and stage icons: pictures, and the badges that stand in for them.
use vstd::prelude::*;
use crate::dates::front;
use crate::gamedata::{
    character_name, character_text, is_upper, stage_name, stage_text,
};
use crate::paths::{join, joined, PathStyle};
use crate::text::{
    chars_of, opt_text, str_text, text_of, texts, to_uppercase, uppercase_text,
};

verus! {

broadcast use {vstd::string::group_string_axioms, vstd::utf8::char_is_scalar};

/// The picture of a table entry under the directory of icons.
pub open spec fn picture_path(
    style: PathStyle,
    base: Seq<char>,
    sub: Seq<char>,
    name: Option<Seq<char>>,
) -> Option<Seq<char>> {
    match name {
        Some(n) => Some(joined(style, joined(style, base, sub), n + ".png"@)),
        None => None,
    }
}

/// The path `<base>/<sub>/<name>.png`, where there is a name.
pub fn name_at(base: &str, sub: &str, name: Option<&str>, style: PathStyle) -> (r: Option<String>)
    ensures
        opt_text(r) == picture_path(style, base@, sub@, str_text(name)),
{
    match name {
        Some(n) => {
            let file = n.to_owned().concat(".png");
            Some(join(style, join(style, base, sub).as_str(), file.as_str()))
        },
        None => None,
    }
}

/// The picture of a character under the directory of icons.
pub fn character_picture(base: &str, id: i32, style: PathStyle) -> (r: Option<String>)
    ensures
        opt_text(r) == picture_path(style, base@, "characters"@, character_text(id as int)),
{
    name_at(base, "characters", character_name(id), style)
}

/// The picture of a stage under the directory of icons.
pub fn stage_picture(base: &str, id: i32, style: PathStyle) -> (r: Option<String>)
    ensures
        opt_text(r) == picture_path(style, base@, "stages"@, stage_text(id as int)),
{
    name_at(base, "stages", stage_name(id), style)
}

/// The directories that may hold icons, best first: beside the program, in the
/// resources of its bundle, in the source tree, and where icons were extracted
/// to.
pub open spec fn asset_places(
    style: PathStyle,
    exe_dir: Option<Seq<char>>,
    source_dir: Option<Seq<char>>,
    extracted: Option<Seq<char>>,
) -> Seq<Seq<char>> {
    let beside = match exe_dir {
        Some(d) => seq![joined(style, d, "assets"@), joined(style, d, "../Resources/assets"@)],
        None => seq![],
    };
    let source = match source_dir {
        Some(d) => seq![joined(style, d, "assets"@)],
        None => seq![],
    };
    let own = match extracted {
        Some(d) => seq![d],
        None => seq![],
    };
    beside + source + own
}

/// The directories that may hold icons, best first.
pub fn asset_dirs(
    exe_dir: Option<&str>,
    source_dir: Option<&str>,
    extracted: Option<&str>,
    style: PathStyle,
) -> (r: Vec<String>)
    ensures
        texts(r@) == asset_places(
            style,
            str_text(exe_dir),
            str_text(source_dir),
            str_text(extracted),
        ),
{
    let mut out: Vec<String> = Vec::new();
    match exe_dir {
        Some(d) => {
            out.push(join(style, d, "assets"));
            out.push(join(style, d, "../Resources/assets"));
        },
        None => {},
    }
    match source_dir {
        Some(d) => {
            out.push(join(style, d, "assets"));
        },
        None => {},
    }
    match extracted {
        Some(d) => {
            out.push(d.to_owned());
        },
        None => {},
    }
    assert(texts(out@) =~= asset_places(
        style,
        str_text(exe_dir),
        str_text(source_dir),
        str_text(extracted),
    ));
    out
}

// -------------------------------------------------------------------- pictures

/// A picture: its width and height, and four bytes for each of its pixels.
#[derive(Debug)]
pub struct Picture {
    pub width: u32,
    pub height: u32,
    pub rgba: Vec<u8>,
}

/// The width, the height and the pixels that the `image` crate finds in the
/// bytes of a picture, where they are one.
pub uninterp spec fn picture_in(bytes: Seq<u8>) -> Option<(u32, u32, Seq<u8>)>;

/// `image::load_from_memory`, with the picture that it finds as RGBA of eight
/// bits: what it finds depends on the bytes alone, and there are four bytes to
/// a pixel.
#[verifier::external_body]
fn load_from_memory(bytes: &[u8]) -> (r: Option<Picture>)
    ensures
        match r {
            Some(p) => picture_in(bytes@) == Some((p.width, p.height, p.rgba@)) && p.rgba@.len() == 4
                * p.width * p.height,
            None => picture_in(bytes@) is None,
        },
{
    let rgba = image::load_from_memory(bytes).ok()?.to_rgba8();
    let (width, height) = rgba.dimensions();
    Some(Picture { width, height, rgba: rgba.into_raw() })
}

/// The picture that the bytes of a file hold.
pub fn decode_picture(bytes: &[u8]) -> (r: Option<Picture>)
    ensures
        match r {
            Some(p) => picture_in(bytes@) == Some((p.width, p.height, p.rgba@)) && p.rgba@.len() == 4
                * p.width * p.height,
            None => picture_in(bytes@) is None,
        },
{
    load_from_memory(bytes)
}

// ---------------------------------------------------------------------- badges

/// The capitals of a name, in order.
pub open spec fn capitals(s: Seq<char>) -> Seq<char> {
    s.filter(|c: char| is_upper(c))
}

/// The short form of a name: its first three capitals where it has two or
/// more, else `shouted`.
pub open spec fn short_form(name: Seq<char>, shouted: Seq<char>) -> Seq<char> {
    if capitals(name).len() >= 2 {
        front(capitals(name), 3)
    } else {
        shouted
    }
}

/// The first three letters of a text.
fn first_three(name: &str) -> (r: String)
    ensures
        r@ == front(name@, 3),
{
    let v = chars_of(name);
    if v.len() <= 3 {
        name.to_owned()
    } else {
        assert(name@.subrange(0, 3) =~= name@.take(3));
        name.substring_char(0, 3).to_owned()
    }
}

/// The short form of a name, where `shouted` is the form of a name with fewer
/// than two capitals.
pub fn abbrev_or(name: &str, shouted: &str) -> (r: String)
    ensures
        r@ == short_form(name@, shouted@),
{
    let v = chars_of(name);
    let ghost f = |c: char| is_upper(c);
    let mut caps: Vec<char> = Vec::new();
    let mut i: usize = 0;
    proof {
        reveal(Seq::filter);
        assert(name@.take(0).filter(f) =~= Seq::<char>::empty());
    }
    while i < v.len()
        invariant
            v@ == name@,
            i <= v.len(),
            f == (|c: char| is_upper(c)),
            caps@ == name@.take(i as int).filter(f),
        decreases v.len() - i,
    {
        proof {
            reveal(Seq::filter);
            assert(name@.take(i + 1).drop_last() =~= name@.take(i as int));
        }
        let code: u32 = v[i] as u32;
        if 65 <= code && code <= 90 {
            caps.push(v[i]);
        }
        i += 1;
    }
    assert(name@.take(i as int) =~= name@);
    if caps.len() >= 2 {
        if caps.len() > 3 {
            caps.truncate(3);
        }
        assert(caps@ =~= front(capitals(name@), 3));
        text_of(caps.as_slice())
    } else {
        shouted.to_owned()
    }
}

/// The short form of a name: its first three capitals where it has two or
/// more, else its first three letters in upper case.
pub fn abbrev(name: &str) -> (r: String)
    ensures
        r@ == short_form(name@, uppercase_text(front(name@, 3))),
{
    let shouted = to_uppercase(first_three(name).as_str());
    abbrev_or(name, shouted.as_str())
}

/// The short form of a table entry, or `?`.
pub open spec fn short_name(name: Option<Seq<char>>) -> Seq<char> {
    match name {
        Some(n) => short_form(n, uppercase_text(front(n, 3))),
        None => "?"@,
    }
}

fn abbrev_of(name: Option<&str>) -> (r: String)
    ensures
        r@ == short_name(str_text(name)),
{
    match name {
        Some(n) => abbrev(n),
        None => "?".to_owned(),
    }
}

/// The short form of a character's name.
pub fn character_abbrev(id: i32) -> (r: String)
    ensures
        r@ == short_name(character_text(id as int)),
{
    abbrev_of(character_name(id))
}

/// The short form of a stage's name, as players write it where they have one.
pub open spec fn stage_short(id: int) -> Seq<char> {
    if id == 2 {
        "FoD"@
    } else if id == 3 {
        "PS"@
    } else if id == 8 {
        "YS"@
    } else if id == 28 {
        "DL"@
    } else if id == 31 {
        "BF"@
    } else if id == 32 {
        "FD"@
    } else {
        short_name(stage_text(id))
    }
}

/// The short form of a stage's name.
pub fn stage_abbrev(id: i32) -> (r: String)
    ensures
        r@ == stage_short(id as int),
{
    match id {
        2 => "FoD".to_owned(),
        3 => "PS".to_owned(),
        8 => "YS".to_owned(),
        28 => "DL".to_owned(),
        31 => "BF".to_owned(),
        32 => "FD".to_owned(),
        _ => abbrev_of(stage_name(id)),
    }
}

/// The red, green and blue of a character's badge.
pub open spec fn character_rgb(id: int) -> (u8, u8, u8) {
    if id == 0 {
        (0xE0, 0x32, 0x2E)
    } else if id == 1 {
        (0xD9, 0x8C, 0x3F)
    } else if id == 2 {
        (0x3E, 0x4E, 0x8A)
    } else if id == 3 {
        (0x7A, 0x4A, 0x2B)
    } else if id == 4 {
        (0xE5, 0x8F, 0xB0)
    } else if id == 5 {
        (0x4E, 0x7A, 0x3A)
    } else if id == 6 {
        (0x3E, 0x8E, 0x5A)
    } else if id == 7 {
        (0x6B, 0x6F, 0x86)
    } else if id == 8 {
        (0xC2, 0x3B, 0x3B)
    } else if id == 9 {
        (0xE5, 0x8F, 0xB0)
    } else if id == 10 {
        (0x5A, 0x8A, 0xD0)
    } else if id == 11 {
        (0xE5, 0x8F, 0xB0)
    } else if id == 12 {
        (0xE6, 0xC5, 0x3A)
    } else if id == 13 {
        (0xD9, 0x77, 0x2F)
    } else if id == 14 {
        (0x5B, 0xA8, 0x4E)
    } else if id == 15 {
        (0xE8, 0x9B, 0xB8)
    } else if id == 16 {
        (0x8A, 0x6F, 0xB0)
    } else if id == 17 {
        (0x3F, 0xA3, 0x5A)
    } else if id == 18 {
        (0x46, 0x64, 0xB0)
    } else if id == 19 {
        (0xB0, 0x56, 0x8A)
    } else if id == 20 {
        (0x4E, 0x9E, 0x66)
    } else if id == 21 {
        (0xD0, 0x45, 0x45)
    } else if id == 22 {
        (0x3A, 0x6A, 0xB8)
    } else if id == 23 {
        (0xE6, 0xCB, 0x54)
    } else if id == 24 {
        (0x2A, 0x2A, 0x2A)
    } else if id == 25 {
        (0x6E, 0x5A, 0x3A)
    } else if id == 26 {
        (0x8A, 0x3A, 0x52)
    } else {
        (0x5A, 0x5A, 0x5A)
    }
}

/// The red, green and blue of a character's badge.
pub fn character_color(id: i32) -> (r: (u8, u8, u8))
    ensures
        r == character_rgb(id as int),
{
    match id {
        0 => (0xE0, 0x32, 0x2E),
        1 => (0xD9, 0x8C, 0x3F),
        2 => (0x3E, 0x4E, 0x8A),
        3 => (0x7A, 0x4A, 0x2B),
        4 => (0xE5, 0x8F, 0xB0),
        5 => (0x4E, 0x7A, 0x3A),
        6 => (0x3E, 0x8E, 0x5A),
        7 => (0x6B, 0x6F, 0x86),
        8 => (0xC2, 0x3B, 0x3B),
        9 => (0xE5, 0x8F, 0xB0),
        10 => (0x5A, 0x8A, 0xD0),
        11 => (0xE5, 0x8F, 0xB0),
        12 => (0xE6, 0xC5, 0x3A),
        13 => (0xD9, 0x77, 0x2F),
        14 => (0x5B, 0xA8, 0x4E),
        15 => (0xE8, 0x9B, 0xB8),
        16 => (0x8A, 0x6F, 0xB0),
        17 => (0x3F, 0xA3, 0x5A),
        18 => (0x46, 0x64, 0xB0),
        19 => (0xB0, 0x56, 0x8A),
        20 => (0x4E, 0x9E, 0x66),
        21 => (0xD0, 0x45, 0x45),
        22 => (0x3A, 0x6A, 0xB8),
        23 => (0xE6, 0xCB, 0x54),
        24 => (0x2A, 0x2A, 0x2A),
        25 => (0x6E, 0x5A, 0x3A),
        26 => (0x8A, 0x3A, 0x52),
        _ => (0x5A, 0x5A, 0x5A),
    }
}

/// The red, green and blue of a stage's badge.
pub open spec fn stage_rgb(id: int) -> (u8, u8, u8) {
    if id == 2 {
        (0x3A, 0x8A, 0x8A)
    } else if id == 3 {
        (0x5A, 0x8A, 0x4E)
    } else if id == 8 {
        (0x6A, 0xA8, 0x4E)
    } else if id == 28 {
        (0x5A, 0xA0, 0xC8)
    } else if id == 31 {
        (0x5A, 0x4E, 0x8A)
    } else if id == 32 {
        (0x3A, 0x40, 0x60)
    } else {
        (0x5A, 0x5A, 0x5A)
    }
}

/// The red, green and blue of a stage's badge.
pub fn stage_color(id: i32) -> (r: (u8, u8, u8))
    ensures
        r == stage_rgb(id as int),
{
    match id {
        2 => (0x3A, 0x8A, 0x8A),
        3 => (0x5A, 0x8A, 0x4E),
        8 => (0x6A, 0xA8, 0x4E),
        28 => (0x5A, 0xA0, 0xC8),
        31 => (0x5A, 0x4E, 0x8A),
        32 => (0x3A, 0x40, 0x60),
        _ => (0x5A, 0x5A, 0x5A),
    }
}

// ------------------------------------------------------------------------ laws

/// Where icons are looked for: beside the program first, then in the source
/// tree, and last where they were extracted to. Each place is left out where it
/// is not known, and changes nothing about the others.
pub proof fn icons_are_looked_for_in_order(
    style: PathStyle,
    exe_dir: Option<Seq<char>>,
    source_dir: Option<Seq<char>>,
    extracted: Option<Seq<char>>,
)
    ensures
        asset_places(style, exe_dir, source_dir, extracted) == asset_places(
            style,
            exe_dir,
            None,
            None,
        ) + asset_places(style, None, source_dir, None) + asset_places(style, None, None, extracted),
        asset_places(style, None, None, None).len() == 0,
        exe_dir is Some ==> asset_places(style, exe_dir, None, None).len() == 2,
        source_dir matches Some(d) ==> asset_places(style, None, source_dir, None) == asset_places(
            style,
            source_dir,
            None,
            None,
        ).take(1),
        extracted matches Some(d) ==> asset_places(style, None, None, extracted) == seq![d],
{
    let none = Seq::<Seq<char>>::empty();
    assert(asset_places(style, exe_dir, source_dir, extracted) =~= asset_places(
        style,
        exe_dir,
        None,
        None,
    ) + asset_places(style, None, source_dir, None) + asset_places(style, None, None, extracted));
    if source_dir is Some {
        assert(asset_places(style, None, source_dir, None) =~= asset_places(
            style,
            source_dir,
            None,
            None,
        ).take(1));
    }
    if extracted is Some {
        assert(asset_places(style, None, None, extracted) =~= seq![extracted->0]);
    }
}

/// A name with two capitals or more is cut to its capitals, no more than three
/// of them; any other is cut as told.
pub proof fn short_forms_are_capitals(name: Seq<char>, shouted: Seq<char>)
    ensures
        capitals(name).len() >= 2 ==> 2 <= short_form(name, shouted).len() <= 3 && (forall|i: int|
            0 <= i < short_form(name, shouted).len() ==> 65 <= #[trigger] short_form(
                name,
                shouted,
            )[i] as u32 <= 90 && short_form(name, shouted)[i] == capitals(name)[i]),
        capitals(name).len() >= 3 ==> short_form(name, shouted).len() == 3,
        capitals(name).len() < 2 ==> short_form(name, shouted) == shouted,
{
    let keep = |c: char| is_upper(c);
    broadcast use vstd::seq_lib::group_filter_ensures;

    assert forall|i: int| 0 <= i < capitals(name).len() implies 65 <= #[trigger] capitals(name)[i] as u32
        <= 90 by {
        assert(keep(capitals(name)[i]));
    }
}

/// Every capital of a name is among its capitals, in order: those of two parts
/// are those of the first and then those of the second.
pub proof fn capitals_follow_the_name(a: Seq<char>, b: Seq<char>, c: char)
    ensures
        capitals(a + b) == capitals(a) + capitals(b),
        65 <= c as u32 <= 90 ==> capitals(seq![c]) == seq![c],
        !(65 <= c as u32 <= 90) ==> capitals(seq![c]).len() == 0,
{
    let keep = |x: char| is_upper(x);
    Seq::filter_distributes_over_add(a, b, keep);
    reveal(Seq::filter);
    assert(seq![c].drop_last() =~= Seq::<char>::empty());
    assert(capitals(seq![c].drop_last()) =~= Seq::<char>::empty());
    assert(seq![c].last() == c);
    if is_upper(c) {
        assert(capitals(seq![c]) =~= seq![c]);
    }
}

/// A picture is a file `.png` named for its entry; without a name there is none.
pub proof fn pictures_are_named_for_their_entry(
    style: PathStyle,
    base: Seq<char>,
    sub: Seq<char>,
    name: Seq<char>,
)
    ensures
        picture_path(style, base, sub, None) is None,
        picture_path(style, base, sub, Some(name)) == Some(
            joined(style, joined(style, base, sub), name + ".png"@),
        ),
{
}

} // verus!
