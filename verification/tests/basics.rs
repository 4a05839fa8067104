use stats_melee::app_icon::diamond_rgba;
use stats_melee::gamedata::{GameData, Port, SlippiPlayer};
use stats_melee::ingest::{
    directory_is_due, is_games_empty, leaves_out, passes_over, playtime_line, post_character, post_game,
    post_game_player, post_player, post_stage, prompt_answer, replay_is_due, total_playtime,
};
use stats_melee::json::{parse_json, Json};
use stats_melee::paths::{
    extension, file_name, join, parent, with_extension, with_file_name, PathStyle,
};
use stats_melee::text::{
    contains, decimal, ends_with, less, parse_i32, parse_u64, same, starts_with, trim, trim_end,
};
use stats_melee::textmap::TextMap;

#[test]
fn white_space_is_that_of_unicode() {
    for s in ["", " a ", "\u{2003}x\u{3000}", "\t\n", "a b", "\u{200b}x", "\u{85}é\u{a0}"] {
        assert_eq!(trim(s), s.trim());
        assert_eq!(trim_end(s), s.trim_end());
    }
    for n in 0..0x11_0000u32 {
        if let Some(c) = char::from_u32(n) {
            assert_eq!(stats_melee::text::white(c), c.is_whitespace(), "U+{n:04X}");
        }
    }
}

#[test]
fn numbers_are_read_as_std_reads_them() {
    for s in [
        "", "+", "-", "0", "+0", "-0", "007", "12", "+12", "-12", "1 ", " 1", "1_0", "٣",
        "2147483647", "2147483648", "-2147483648", "-2147483649", "+-1", "99999999999999999999",
        "18446744073709551615", "18446744073709551616",
    ] {
        assert_eq!(parse_i32(s), s.parse::<i32>().ok(), "{s:?}");
        assert_eq!(parse_u64(s), s.parse::<u64>().ok(), "{s:?}");
    }
    for n in [0u128, 7, 10, 99, 100, 12345, u128::MAX] {
        assert_eq!(decimal(n), n.to_string());
    }
}

#[test]
fn strings_are_ordered_as_std_orders_them() {
    let all = ["", "a", "ab", "b", "B", "é", "z", "\u{10000}", "\u{ffff}", "a\u{300}"];
    for a in all {
        for b in all {
            assert_eq!(less(a, b), a < b, "{a:?} {b:?}");
            assert_eq!(same(a, b), a == b);
            assert_eq!(contains(a, b), a.contains(b));
            assert_eq!(starts_with(a, b), a.starts_with(b));
            assert_eq!(ends_with(a, b), a.ends_with(b));
        }
    }
}

#[test]
fn paths_are_taken_apart_as_std_takes_them_apart() {
    let unix = PathStyle::Unix;
    for p in [
        "", "/", "//", ".", "..", "./", "/.", "/..", "a", "a/", "a/.", "a/..", "./a", "a/./b",
        "a//b//", "/a/b", "//a", "/./a", "a.b", ".b", "a.", "a.b.c", "..a", "a/.b/", "x/y.app",
        "./.", "a/b/././/", "..a/", "..ab/", "d/..a",
    ] {
        let std_path = std::path::Path::new(p);
        assert_eq!(file_name(unix, p), std_path.file_name().map(|s| s.to_str().unwrap()), "{p:?}");
        assert_eq!(parent(unix, p), std_path.parent().map(|s| s.to_str().unwrap()), "{p:?}");
        assert_eq!(extension(unix, p), std_path.extension().map(|s| s.to_str().unwrap()), "{p:?}");
        assert_eq!(with_file_name(unix, p, "z"), std_path.with_file_name("z").to_str().unwrap(), "{p:?}");
        assert_eq!(with_extension(unix, p, "z"), std_path.with_extension("z").to_str().unwrap(), "{p:?}");
        for q in ["", "b", "/b", "b/c", "."] {
            assert_eq!(join(unix, p, q), std_path.join(q).to_str().unwrap(), "{p:?} {q:?}");
        }
    }
}

#[test]
fn documents_keep_the_order_of_their_members() {
    let doc = br#"{"b":1,"a":[true,null,"x",-1,2.5],"b2":{"c":18446744073709551615}}"#;
    let j = parse_json(doc).expect("JSON");
    match &j {
        Json::Object(v) => {
            let keys: Vec<_> = v.iter().map(|e| e.0.as_str()).collect();
            assert_eq!(keys, vec!["b", "a", "b2"]);
        }
        _ => panic!("an object"),
    }
    assert!(matches!(j.get("b"), Some(Json::Number(Some(1)))));
    match j.get("a") {
        Some(Json::List(v)) => {
            assert!(matches!(v[0], Json::Bool(true)));
            assert!(matches!(v[1], Json::Null));
            assert!(matches!(&v[2], Json::Text(s) if s == "x"));
            assert!(matches!(v[3], Json::Number(None)));
            assert!(matches!(v[4], Json::Number(None)));
        }
        _ => panic!("a list"),
    }
    let deep = j.get("b2").and_then(|x| x.get("c"));
    assert!(matches!(deep, Some(Json::Number(Some(u64::MAX)))));
    assert!(j.get("c").is_none());
    assert!(parse_json(b"").is_none());
    assert!(parse_json(b"{} x").is_none());
}

#[test]
fn maps_keep_one_value_for_a_key() {
    let mut m: TextMap<i32> = TextMap::new();
    m.insert("a".to_string(), 1);
    m.insert("b".to_string(), 2);
    m.insert("a".to_string(), 3);
    assert_eq!(m.len(), 2);
    assert_eq!(m.get("a"), Some(&3));
    assert_eq!(m.get("c"), None);
    assert_eq!((m.key_at(0), *m.value_at(0)), ("a", 3));
    assert_eq!((m.key_at(1), *m.value_at(1)), ("b", 2));
}

#[test]
fn directories_and_replays_are_chosen_by_name_and_time() {
    for name in ["target", "src", "migrations", "stats-melee", ".git", "."] {
        assert!(passes_over(name), "{name}");
    }
    for name in ["", "2024-01", "sources", "Target"] {
        assert!(!passes_over(name), "{name}");
    }
    assert!(leaves_out("target") && leaves_out("src") && leaves_out(".git"));
    assert!(!leaves_out("migrations") && !leaves_out("stats-melee"));
    assert!(directory_is_due(false, 5, 5));
    assert!(!directory_is_due(false, 4, 5));
    assert!(directory_is_due(true, 4, 5));
    assert!(!replay_is_due(false, 5, 5));
    assert!(replay_is_due(false, 6, 5));
    assert!(replay_is_due(true, 0, 5));
    assert!(is_games_empty(0));
    assert!(!is_games_empty(1));
}

#[test]
fn rows_are_written_as_they_were_read() {
    let p = SlippiPlayer {
        netplay: "frnk#948".to_string(),
        code: "BigFrank70".to_string(),
        character: 32,
        port: Port::P2,
    };
    let np = post_player(&p);
    assert_eq!((np.netplay, np.code), ("frnk#948", "BigFrank70"));
    let ngp = post_game_player(&p);
    assert_eq!((ngp.code, ngp.character, ngp.port), ("BigFrank70", 32, 2));
    let g = GameData { placements: [Some(p), None, None, None], stage: 8, time: 99 };
    let ng = post_game(&g, [Some(5), None, None, Some(6)]);
    assert_eq!((ng.first, ng.second, ng.third, ng.fourth), (Some(5), None, None, Some(6)));
    assert_eq!((ng.stage, ng.time), (8, 99));
    assert_eq!(post_stage(3, "x".to_string()).id, 3);
    assert_eq!(post_character(4, "y".to_string()).name, "y");
    assert_eq!(prompt_answer(" ME#1 \r\n"), " ME#1");
}

#[test]
fn play_time_is_summed_in_whole_seconds() {
    assert_eq!(total_playtime(&vec![59, 60, 119, 7200]), 122);
    assert_eq!(total_playtime(&vec![]), 0);
    assert_eq!(playtime_line(3 * 3600 + 5 * 60 + 9), "total playtime: 3:5:9");
}

fn float_icon(size: usize) -> Vec<u8> {
    let s = size as f32;
    let radius = s * (40.0 / 256.0);
    let center = s / 2.0;
    let diamond = s * (82.0 / 256.0);
    let mut rgba = Vec::new();
    for y in 0..size {
        for x in 0..size {
            let (fx, fy) = (x as f32 + 0.5, y as f32 + 0.5);
            let cx = fx.clamp(radius, s - radius);
            let cy = fy.clamp(radius, s - radius);
            let (dx, dy) = (fx - cx, fy - cy);
            if dx * dx + dy * dy > radius * radius {
                rgba.extend_from_slice(&[0, 0, 0, 0]);
            } else if (fx - center).abs() + (fy - center).abs() <= diamond {
                rgba.extend_from_slice(&[0xE7, 0xB1, 0x3B, 255]);
            } else {
                rgba.extend_from_slice(&[0x16, 0x13, 0x20, 255]);
            }
        }
    }
    rgba
}

#[test]
fn the_icon_is_that_of_the_geometry() {
    for size in [0, 1, 2, 3, 7, 16, 24, 32, 48, 63, 64, 100, 128, 255, 256, 512, 1024] {
        assert!(diamond_rgba(size) == float_icon(size), "size {size}");
    }
    let icon = diamond_rgba(256);
    assert_eq!(icon.len(), 4 * 256 * 256);
    assert_eq!(&icon[..4], &[0, 0, 0, 0]);
    let middle = 4 * (128 * 256 + 128);
    assert_eq!(&icon[middle..middle + 4], &[0xE7, 0xB1, 0x3B, 255]);
}

#[test]
fn paths_are_taken_apart_as_windows_writes_them() {
    let w = PathStyle::Windows;
    for (p, name, dir) in [
        (r"C:\a\b.txt", Some("b.txt"), Some(r"C:\a")),
        (r"C:\b.txt", Some("b.txt"), Some(r"C:\")),
        ("C:b.txt", Some("b.txt"), Some("C:")),
        (r"C:/a/b\", Some("b"), Some("C:/a")),
        (r"\a", Some("a"), Some(r"\")),
        (r"a\.\b", Some("b"), Some("a")),
        ("C:", None, None),
        (r"C:\", None, None),
        ("C:.", None, None),
        (r"\\server\share\f", Some("f"), Some(r"\\server\share\")),
        (r"\\server\share", None, None),
        (r"\\.\COM1\x", Some("x"), Some(r"\\.\COM1\")),
        (r"\\?\C:\a\b", Some("b"), Some(r"\\?\C:\a")),
        (r"\\?\UNC\s\h\f", Some("f"), Some(r"\\?\UNC\s\h\")),
        (r"\\?\C:\a/b", Some("a/b"), Some(r"\\?\C:\")),
    ] {
        assert_eq!(file_name(w, p), name, "{p:?}");
        assert_eq!(parent(w, p), dir, "{p:?}");
    }
    assert_eq!(extension(w, r"C:\a.b\c"), None);
    assert_eq!(with_extension(w, r"C:\a.b\c", "tmp"), r"C:\a.b\c.tmp");
    assert_eq!(with_file_name(w, "C:f", "g"), "C:g");
}

#[test]
fn paths_are_joined_as_windows_joins_them() {
    let w = PathStyle::Windows;
    assert_eq!(join(w, r"C:\a", "b"), r"C:\a\b");
    assert_eq!(join(w, r"C:\a\", "b"), r"C:\a\b");
    assert_eq!(join(w, "C:/a/", "b"), "C:/a/b");
    assert_eq!(join(w, "C:", "b"), "C:b");
    assert_eq!(join(w, "", "b"), "b");
    assert_eq!(join(w, r"C:\a", r"D:\b"), r"D:\b");
    assert_eq!(join(w, r"C:\a", r"\b"), r"C:\b");
    assert_eq!(join(w, r"\\s\h\a", r"\b"), r"\\s\h\b");
    assert_eq!(join(w, r"\\?\C:\a", "../x/./y"), r"\\?\C:\x\y");
    assert_eq!(join(w, r"\\?\C:\a", r"\b"), r"\\?\C:\b");
    assert_eq!(join(w, r"\\?\C:\a", ".."), r"\\?\C:\");
}
