use stats_melee::paths::PathStyle;
use stats_melee::slippi::Platform;
use stats_melee::slippi_icons::{
    asar_candidates, choose_asar, extraction_is_due, find_asar, is_script, override_candidates, parse_chunk,
    plan_character_icons, plan_icons, plan_stage_icons, read_preamble, resolve_launcher_override, Asar, ExtractError, InstallDirs,
    PathKind, Preamble,
};
use stats_melee::textmap::TextMap;

#[test]
fn icons_are_extracted_when_there_are_none() {
    assert!(extraction_is_due(false));
    assert!(!extraction_is_due(true));
}

fn scan(src: &str) -> (TextMap<String>, TextMap<String>, TextMap<String>) {
    let (mut m, mut c, mut s) = (TextMap::new(), TextMap::new(), TextMap::new());
    parse_chunk(src, &mut m, &mut c, &mut s);
    (m, c, s)
}

fn get<'a>(m: &'a TextMap<String>, k: &str) -> Option<&'a str> {
    m.get(k).map(|s| s.as_str())
}

#[test]
fn asset_modules_lead_to_hashed_files() {
    let (m, c, s) = scan(
        r#"{1234(n,r,e){"use strict";n.exports=e.p+"0aF9.png"},77(t){"use strict";t.exports=x.p+"zz.png"}}"#,
    );
    assert_eq!(get(&m, "1234"), Some("0aF9.png"));
    // Not a hash.
    assert_eq!(get(&m, "77"), None);
    assert_eq!((c.len(), s.len()), (0, 0));
}

#[test]
fn asset_modules_are_bounded_on_both_sides() {
    let near = format!("9({}){{\"use strict\";n.exports=e.p+\"ab.png\"", "x".repeat(40));
    assert_eq!(get(&scan(&near).0, "9"), Some("ab.png"));
    let far = format!("9({}){{\"use strict\";n.exports=e.p+\"ab.png\"", "x".repeat(41));
    assert_eq!(get(&scan(&far).0, "9"), None);
    // Bytes count, not characters.
    let wide = format!("9({}){{\"use strict\";n.exports=e.p+\"ab.png\"", "é".repeat(21));
    assert_eq!(get(&scan(&wide).0, "9"), None);
    let late = format!("9(a){{\"use strict\";{}.p+\"ab.png\"", "y".repeat(24));
    assert_eq!(get(&scan(&late).0, "9"), Some("ab.png"));
    let later = format!("9(a){{\"use strict\";{}.p+\"ab.png\"", "y".repeat(25));
    assert_eq!(get(&scan(&later).0, "9"), None);
    // No digits in front of the parameters, or no parameters at all.
    assert_eq!(scan("f(a){\"use strict\";e.p+\"ab.png\"").0.len(), 0);
    assert_eq!(scan("){\"use strict\";e.p+\"ab.png\"").0.len(), 0);
    assert_eq!(scan("5(a){\"use strict\";e.p+\".png\"").0.len(), 0);
    assert_eq!(scan("5(a){\"use strict\";e.p+\"ab").0.len(), 0);
}

#[test]
fn contexts_map_characters_and_stages_to_modules() {
    let (m, c, s) = scan(
        r#"{"./20/0/stock.png":4411,"./20/1/stock.png":4412,"./31.png":55,"x/32.png":66,"./2.png":"#,
    );
    assert_eq!(m.len(), 0);
    assert_eq!(get(&c, "20/0"), Some("4411"));
    assert_eq!(get(&c, "20/1"), Some("4412"));
    assert_eq!(c.len(), 2);
    assert_eq!(get(&s, "31"), Some("55"));
    // Not under the root, or without a module.
    assert_eq!(s.len(), 1);
}

#[test]
fn later_entries_replace_earlier_ones() {
    let (mut m, mut c, mut s) = (TextMap::new(), TextMap::new(), TextMap::new());
    parse_chunk(r#""./31.png":1,"./8.png":2"#, &mut m, &mut c, &mut s);
    parse_chunk(r#""./31.png":9"#, &mut m, &mut c, &mut s);
    assert_eq!(get(&s, "31"), Some("9"));
    assert_eq!(get(&s, "8"), Some("2"));
    assert_eq!(s.key_at(0), "31");
    assert_eq!(s.len(), 2);
}

#[test]
fn icons_are_planned_by_character_and_by_stage() {
    let (m, c, s) = scan(
        r#"10(a){"use strict";e.p+"aa.png"}11(a){"use strict";e.p+"bb.png"}
        "./20/0/stock.png":10,"./20/1/stock.png":11,"./8/0/stock.png":99,
        "./31.png":11,"./1.png":10,"./0031.png":10,"./33.png":10,"./99999999999999999999999.png":10"#,
    );
    let chars: Vec<_> = plan_character_icons(&c, &m)
        .into_iter()
        .map(|i| (i.file, i.name))
        .collect();
    // Mario's module has no picture.
    assert_eq!(chars, vec![("aa.png".to_string(), "Falco".to_string())]);
    let stages: Vec<_> = plan_stage_icons(&s, &m)
        .into_iter()
        .map(|i| (i.file, i.name))
        .collect();
    assert_eq!(
        stages,
        vec![
            ("bb.png".to_string(), "Battlefield".to_string()),
            ("aa.png".to_string(), "Battlefield".to_string()),
        ]
    );
}

fn preamble(header_size: u32, json_size: u32) -> [u8; 16] {
    let mut pre = [0u8; 16];
    pre[0] = 4;
    pre[4..8].copy_from_slice(&header_size.to_le_bytes());
    pre[12..16].copy_from_slice(&json_size.to_le_bytes());
    pre
}

#[test]
fn preambles_are_little_endian() {
    assert_eq!(
        read_preamble(&preamble(0x0102_0304, 0xfffe_fdfc)),
        Preamble { json_size: 0xfffe_fdfc, data_offset: 8 + 0x0102_0304 }
    );
}

const INDEX: &str = r#"{"files":{"dist":{"files":{"renderer":{"files":{
    "b.js":{"size":12,"offset":"30"},
    "a.png":{"size":5,"offset":"+42"},
    "bad.js":{"size":5,"offset":7},
    "huge.js":{"size":1,"offset":"18446744073709551615"},
    "float.js":{"size":1.5,"offset":"0"}
}}}}}}"#;

#[test]
fn archives_are_walked_by_their_index() {
    let pre = read_preamble(&preamble(100, INDEX.len() as u32));
    let arc = Asar::open(pre, INDEX.as_bytes()).expect("an index");
    assert_eq!(
        arc.listdir(&["dist", "renderer"]),
        vec!["b.js", "a.png", "bad.js", "huge.js", "float.js"]
    );
    assert_eq!(arc.listdir(&[]), vec!["dist"]);
    assert!(arc.listdir(&["dist", "main"]).is_empty());
    assert!(arc.listdir(&["dist", "renderer", "b.js"]).is_empty());
    assert_eq!(arc.extent(&["dist", "renderer", "b.js"]), Some((138, 12)));
    assert_eq!(arc.extent(&["dist", "renderer", "a.png"]), Some((150, 5)));
    assert_eq!(arc.extent(&["dist", "renderer", "bad.js"]), None);
    assert_eq!(arc.extent(&["dist", "renderer", "huge.js"]), None);
    assert_eq!(arc.extent(&["dist", "renderer", "float.js"]), None);
    assert_eq!(arc.extent(&["dist"]), None);
    assert!(arc.node(&["nowhere"]).is_none());
    assert!(Asar::open(pre, b"{").is_none());
}

fn nowhere() -> InstallDirs {
    InstallDirs { home: None, local_app_data: None, program_files: Vec::new() }
}

#[test]
fn archives_are_sought_where_launchers_install() {
    let mac = asar_candidates(Platform::MacOs, &nowhere());
    assert_eq!(mac[0], "/Applications/Slippi Launcher.app/Contents/Resources/app.asar");
    assert_eq!(mac.len(), 3);
    assert!(asar_candidates(Platform::Linux, &nowhere()).is_empty());
    let home = InstallDirs { home: Some("/home/me".to_string()), ..nowhere() };
    assert_eq!(
        asar_candidates(Platform::Linux, &home),
        vec![
            "/home/me/.local/share/Slippi Launcher/resources/app.asar",
            "/opt/Slippi Launcher/resources/app.asar",
        ]
    );
    let win = InstallDirs {
        home: None,
        local_app_data: Some(r"C:\Local".to_string()),
        program_files: vec![r"C:\Program Files".to_string()],
    };
    let found = asar_candidates(Platform::Windows, &win);
    assert_eq!(found.len(), 9);
    assert_eq!(found[0], r"C:\Local\Programs\Slippi Launcher\resources\app.asar");
    assert_eq!(found[4], r"C:\Local\Programs\slippi-launcher\resources\app-x64.asar");
    assert_eq!(found[8], r"C:\Program Files\Slippi Launcher\resources\app-arm64.asar");
}

#[test]
fn override_resolves_asar_from_install_dir_or_file() {
    let install = "/apps/Slippi Launcher";
    let places = override_candidates(install, PathStyle::Unix);
    assert_eq!(places.len(), 9);
    // A bare install dir with `resources/app.asar` inside resolves to it.
    let asar = "/apps/Slippi Launcher/resources/app.asar".to_string();
    let present: Vec<bool> = places.iter().map(|p| *p == asar).collect();
    assert_eq!(
        resolve_launcher_override(install, PathKind::Directory, &present, PathStyle::Unix),
        Some(asar.clone())
    );
    // Pointing straight at the `.asar` file returns it unchanged.
    assert_eq!(
        resolve_launcher_override(&asar, PathKind::File, &vec![], PathStyle::Unix),
        Some(asar)
    );
    // A directory with no asar (and a non-asar file) resolves to None.
    assert_eq!(
        resolve_launcher_override("/apps/empty", PathKind::Directory, &vec![false; 9], PathStyle::Unix),
        None
    );
    assert_eq!(
        resolve_launcher_override("/apps/notes.txt", PathKind::File, &vec![], PathStyle::Unix),
        None
    );
    assert_eq!(
        resolve_launcher_override("/apps/gone.asar", PathKind::Missing, &vec![true], PathStyle::Unix),
        None
    );
}

#[test]
fn the_first_archive_that_is_there_is_used() {
    let places: Vec<String> = ["a", "b", "c"].iter().map(|s| s.to_string()).collect();
    assert_eq!(find_asar(&places, &vec![false, true, true]), Some("b".to_string()));
    assert_eq!(find_asar(&places, &vec![false, false, false]), None);
    assert!(is_script("main.js"));
    assert!(!is_script("main.js.map"));
}

#[test]
fn failed_extractions_say_why() {
    assert_eq!(ExtractError::NoInstall.message(), "no Slippi Launcher install found");
    assert!(ExtractError::NoRenderer.message().contains("no dist/renderer"));
    assert!(ExtractError::NoContext.message().contains("no stock-icon context"));
}

#[test]
fn scripts_are_those_of_the_renderer() {
    let pre = read_preamble(&preamble(100, INDEX.len() as u32));
    let arc = Asar::open(pre, INDEX.as_bytes()).expect("an index");
    assert_eq!(arc.scripts(), Ok(["b.js", "bad.js", "huge.js", "float.js"].map(String::from).to_vec()));
    let bare = Asar::open(pre, br#"{"files":{"dist":{"files":{}}}}"#).expect("an index");
    assert_eq!(bare.scripts(), Err(ExtractError::NoRenderer));
    let empty = Asar::open(pre, br#"{"files":{"dist":{"files":{"renderer":{"files":{}}}}}}"#);
    assert_eq!(empty.expect("an index").scripts(), Err(ExtractError::NoRenderer));
}

#[test]
fn the_archive_of_the_user_comes_first() {
    let (mine, found) = (Some("/a".to_string()), Some("/b".to_string()));
    assert_eq!(choose_asar(mine, found.clone()), Ok("/a".to_string()));
    assert_eq!(choose_asar(None, found), Ok("/b".to_string()));
    assert_eq!(choose_asar(None, None), Err(ExtractError::NoInstall));
}

#[test]
fn a_bundle_without_contexts_gives_no_icons() {
    let (m, c, s) = scan(r#"10(a){"use strict";e.p+"aa.png"}"#);
    assert!(matches!(plan_icons(&c, &s, &m), Err(ExtractError::NoContext)));
    let (m, c, s) = scan(r#"10(a){"use strict";e.p+"aa.png"}"./31.png":10"#);
    match plan_icons(&c, &s, &m) {
        Ok(plan) => {
            assert!(plan.characters.is_empty());
            assert_eq!(plan.stages.len(), 1);
            assert_eq!(plan.stages[0].name, "Battlefield");
            assert_eq!(plan.stages[0].file, "aa.png");
        }
        Err(e) => panic!("{}", e.message()),
    }
}

#[test]
fn overrides_are_looked_for_as_windows_writes_them() {
    let places = override_candidates(r"C:\Slippi", PathStyle::Windows);
    assert_eq!(places[0], r"C:\Slippi\app.asar");
    assert_eq!(places[3], r"C:\Slippi\Contents\Resources\app.asar");
    assert_eq!(places[8], r"C:\Slippi\resources\app-x64.asar");
    let asar = r"C:\a.b\app.asar";
    assert_eq!(
        resolve_launcher_override(asar, PathKind::File, &vec![], PathStyle::Windows),
        Some(asar.to_string())
    );
    assert_eq!(
        resolve_launcher_override(r"C:\x.asar\y", PathKind::File, &vec![], PathStyle::Windows),
        None
    );
}
