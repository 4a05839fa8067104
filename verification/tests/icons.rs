use stats_melee::paths::PathStyle;
use stats_melee::icons::{
    abbrev, abbrev_or, asset_dirs, character_abbrev, character_color, character_picture,
    decode_picture, name_at, stage_abbrev, stage_color, stage_picture,
};

#[test]
fn abbrev_camelcase_takes_capitals() {
    assert_eq!(abbrev("CaptainFalcon"), "CF");
    assert_eq!(abbrev("DonkeyKong"), "DK");
    assert_eq!(abbrev("GameAndWatch"), "GAW");
}

#[test]
fn abbrev_single_word_takes_first_three() {
    assert_eq!(abbrev("Fox"), "FOX");
    assert_eq!(abbrev("Mario"), "MAR");
}

#[test]
fn stage_abbrev_uses_community_shorthand() {
    assert_eq!(stage_abbrev(2), "FoD");
    assert_eq!(stage_abbrev(31), "BF");
    assert_eq!(stage_abbrev(32), "FD");
}

#[test]
fn out_of_range_ids_are_safe() {
    assert_eq!(character_abbrev(999), "?");
    assert_eq!(stage_abbrev(999), "?");
    // Color lookups must not panic on junk ids.
    let _ = character_color(-1);
    let _ = stage_color(999);
}

#[test]
fn upper_case_is_that_of_unicode() {
    assert_eq!(abbrev("straße"), "STR");
    assert_eq!(abbrev("ßa"), "SSA");
    assert_eq!(abbrev_or("Fox", "xyz"), "xyz");
    assert_eq!(abbrev_or("ABCD", "xyz"), "ABC");
}

#[test]
fn pictures_lie_under_their_names() {
    assert_eq!(
        character_picture("/assets", 22, PathStyle::Unix),
        Some("/assets/characters/Falco.png".to_string())
    );
    assert_eq!(stage_picture("/assets/", 31, PathStyle::Unix), Some("/assets/stages/Battlefield.png".to_string()));
    assert_eq!(character_picture("/assets", 33, PathStyle::Unix), None);
    assert_eq!(stage_picture("/assets", -1, PathStyle::Unix), None);
    assert_eq!(name_at("a", "b", Some("c"), PathStyle::Unix), Some("a/b/c.png".to_string()));
}

#[test]
fn icons_are_sought_beside_the_program_first() {
    assert_eq!(
        asset_dirs(Some("/bin"), Some("/src"), Some("/data/assets"), PathStyle::Unix),
        vec!["/bin/assets", "/bin/../Resources/assets", "/src/assets", "/data/assets"]
    );
    assert!(asset_dirs(None, None, None, PathStyle::Unix).is_empty());
}

#[test]
fn badge_colors_have_their_shades() {
    assert_eq!(character_color(0), (0xE0, 0x32, 0x2E));
    assert_eq!(character_color(26), (0x8A, 0x3A, 0x52));
    assert_eq!(character_color(27), (0x5A, 0x5A, 0x5A));
    assert_eq!(stage_color(32), (0x3A, 0x40, 0x60));
    assert_eq!(stage_color(4), (0x5A, 0x5A, 0x5A));
}

#[test]
fn png_files_are_decoded_to_rgba() {
    let mut img = image::RgbaImage::new(2, 1);
    img.put_pixel(0, 0, image::Rgba([1, 2, 3, 4]));
    img.put_pixel(1, 0, image::Rgba([250, 251, 252, 255]));
    let mut png = std::io::Cursor::new(Vec::new());
    img.write_to(&mut png, image::ImageFormat::Png).expect("encode");
    let p = decode_picture(png.get_ref()).expect("a picture");
    assert_eq!((p.width, p.height), (2, 1));
    assert_eq!(p.rgba, vec![1, 2, 3, 4, 250, 251, 252, 255]);
    assert!(decode_picture(b"not a picture").is_none());
}

#[test]
fn gray_pictures_get_four_bytes_to_a_pixel() {
    let img = image::GrayImage::from_pixel(3, 2, image::Luma([9]));
    let mut png = std::io::Cursor::new(Vec::new());
    img.write_to(&mut png, image::ImageFormat::Png).expect("encode");
    let p = decode_picture(png.get_ref()).expect("a picture");
    assert_eq!((p.width, p.height, p.rgba.len()), (3, 2, 24));
    assert_eq!(&p.rgba[..4], &[9, 9, 9, 255]);
}
