use stats_melee::paths::PathStyle;
use stats_melee::slippi::{
    app_bundle_for_inner_binary, build_comm_json, comm_file_failed, comm_file_name,
    default_binary_for_platform, first_appimage_in, json_string_escape, launch_replay,
    linux_dolphin_dirs, macos_default_candidates, parse_mdfind_output, plan_for_platform,
    plan_launch, plan_with_default, predict_app_inner_binary, preflight, resolve_override_binary,
    spawn_plan, windows_default_candidates, LaunchPlan, Platform, SlippiLaunchError,
};

fn fake_comm() -> String {
    "/tmp/slippi-comm.json".to_string()
}

#[test]
fn override_command_wins_over_defaults() {
    let plan = plan_for_platform(
        "/tmp/game.slp",
        &fake_comm(),
        Some("/usr/local/bin/slippi"),
        None,
        Platform::MacOs,
        PathStyle::Unix,
    )
    .expect("should succeed");
    assert_eq!(plan.program, "/usr/local/bin/slippi");
    assert_eq!(
        plan.args,
        vec![
            "-i".to_string(),
            "/tmp/slippi-comm.json".to_string(),
            "-b".to_string(),
        ]
    );
}

#[test]
fn override_command_trims_whitespace() {
    // Override non-empty after trim should bypass default lookup,
    // so this passes even though we pick Linux (no default).
    let plan = plan_for_platform(
        "/tmp/game.slp",
        &fake_comm(),
        Some("  /usr/local/bin/slippi  "),
        None,
        Platform::Linux,
        PathStyle::Unix,
    )
    .expect("should succeed");
    assert_eq!(plan.program, "/usr/local/bin/slippi");
}

#[test]
fn override_app_bundle_resolves_to_inner_binary() {
    let plan = plan_for_platform(
        "/tmp/game.slp",
        &fake_comm(),
        Some("/Applications/Slippi Dolphin.app"),
        None,
        Platform::MacOs,
        PathStyle::Unix,
    )
    .expect("should succeed");
    assert_eq!(
        plan.program,
        "/Applications/Slippi Dolphin.app/Contents/MacOS/Slippi Dolphin"
    );
}

#[test]
fn predict_app_inner_binary_basic() {
    let p = predict_app_inner_binary("/Applications/Foo.app", PathStyle::Unix).unwrap();
    assert_eq!(p, "/Applications/Foo.app/Contents/MacOS/Foo");
}

#[test]
fn predict_app_inner_binary_handles_spaces() {
    let p = predict_app_inner_binary("/Applications/Slippi Dolphin.app", PathStyle::Unix).unwrap();
    assert_eq!(
        p,
        "/Applications/Slippi Dolphin.app/Contents/MacOS/Slippi Dolphin"
    );
}

#[test]
fn predict_app_inner_binary_returns_none_for_non_app() {
    assert!(predict_app_inner_binary("/usr/local/bin/slippi", PathStyle::Unix).is_none());
    assert!(predict_app_inner_binary("/Applications/Foo", PathStyle::Unix).is_none());
}

#[test]
fn app_bundle_derived_from_inner_binary() {
    // The inner binary `open -a` needs to foreground-launch the bundle.
    let inner = "/Applications/Slippi Dolphin.app/Contents/MacOS/Slippi Dolphin";
    assert_eq!(
        app_bundle_for_inner_binary(inner),
        Some("/Applications/Slippi Dolphin.app".to_string())
    );
}

#[test]
fn app_bundle_none_for_bare_or_malformed_paths() {
    // Bare binary (power-user override) — no bundle, spawn directly.
    assert!(app_bundle_for_inner_binary("/usr/local/bin/slippi").is_none());
    // Has Contents/MacOS but the grandparent isn't a `.app`.
    assert!(app_bundle_for_inner_binary("/opt/Contents/MacOS/foo").is_none());
}

#[test]
fn empty_or_whitespace_override_falls_back_to_platform_default() {
    // Blank override should act like None — hit macOS default.
    let plan = plan_for_platform("/tmp/g.slp", &fake_comm(), Some("   "), None, Platform::MacOs, PathStyle::Unix)
        .expect("should succeed");
    assert_eq!(
        plan.program,
        "/Applications/Slippi Dolphin.app/Contents/MacOS/Slippi Dolphin"
    );
}

#[test]
fn empty_replay_path_rejected() {
    let err = plan_for_platform("", &fake_comm(), None, None, Platform::MacOs, PathStyle::Unix).unwrap_err();
    assert!(matches!(err, SlippiLaunchError::NoReplayPath));
}

#[test]
fn macos_default_points_at_app_bundle_inner_binary() {
    let plan = plan_for_platform("/data/game.slp", &fake_comm(), None, None, Platform::MacOs, PathStyle::Unix)
        .expect("should succeed");
    assert_eq!(
        plan.program,
        "/Applications/Slippi Dolphin.app/Contents/MacOS/Slippi Dolphin"
    );
    assert_eq!(plan.args[0], "-i");
    assert_eq!(plan.args[1], "/tmp/slippi-comm.json");
    assert_eq!(plan.args[2], "-b");
}

#[test]
fn iso_path_appends_exec_arg() {
    let plan = plan_for_platform(
        "/data/game.slp",
        &fake_comm(),
        None,
        Some("/games/melee.iso"),
        Platform::MacOs,
        PathStyle::Unix,
    )
    .expect("should succeed");
    assert_eq!(
        plan.args,
        vec![
            "-i".to_string(),
            "/tmp/slippi-comm.json".to_string(),
            "-b".to_string(),
            "-e".to_string(),
            "/games/melee.iso".to_string(),
        ]
    );
}

#[test]
fn blank_iso_path_is_ignored() {
    // A whitespace-only ISO path should be treated as "not set" — no
    // trailing `-e` with an empty argument.
    let plan = plan_for_platform(
        "/data/game.slp",
        &fake_comm(),
        None,
        Some("   "),
        Platform::MacOs,
        PathStyle::Unix,
    )
    .expect("should succeed");
    assert_eq!(plan.args.len(), 3, "got: {:?}", plan.args);
    assert!(!plan.args.iter().any(|a| a == "-e"));
}

#[test]
fn linux_default_errors_without_override() {
    let err = plan_for_platform("/data/game.slp", &fake_comm(), None, None, Platform::Linux, PathStyle::Unix)
        .unwrap_err();
    assert!(matches!(err, SlippiLaunchError::NoDefaultForPlatform));
}

#[test]
fn windows_default_errors_without_override() {
    let err = plan_for_platform("/data/game.slp", &fake_comm(), None, None, Platform::Windows, PathStyle::Unix)
        .unwrap_err();
    assert!(matches!(err, SlippiLaunchError::NoDefaultForPlatform));
}

#[test]
fn unknown_platform_errors_without_override() {
    let err = plan_for_platform("/data/game.slp", &fake_comm(), None, None, Platform::Unknown, PathStyle::Unix)
        .unwrap_err();
    assert!(matches!(err, SlippiLaunchError::NoDefaultForPlatform));
}

#[test]
fn comm_json_has_normal_mode_and_replay_path() {
    let json = build_comm_json("/tmp/game.slp");
    assert!(json.contains(r#""mode":"normal""#), "got: {json}");
    assert!(json.contains(r#""replay":"/tmp/game.slp""#), "got: {json}");
    assert!(json.contains(r#""isRealTimeMode":false"#), "got: {json}");
    assert!(json.contains(r#""outputOverlayFiles":false"#), "got: {json}");
}

#[test]
fn comm_json_escapes_special_chars_in_path() {
    // Backslashes and quotes should both get escaped. Not common
    // in real paths, but a user with a weird folder name shouldn't
    // produce malformed JSON that makes Dolphin bail.
    let json = build_comm_json(r#"/tmp/weird"name\ok.slp"#);
    assert!(json.contains(r#"\""#), "got: {json}");
    assert!(json.contains(r#"\\"#), "got: {json}");
}

#[test]
fn mdfind_output_prefers_playback_over_netplay() {
    let stdout = "\
/Users/foo/Library/Application Support/Slippi Launcher/netplay/Slippi Dolphin.app
/Users/foo/Library/Application Support/Slippi Launcher/playback/Slippi Dolphin.app
";
    let picked = parse_mdfind_output(stdout).unwrap();
    assert_eq!(
        picked,
        "/Users/foo/Library/Application Support/Slippi Launcher/playback/Slippi Dolphin.app"
    );
}

#[test]
fn mdfind_output_skips_dmg_installer_volumes() {
    let stdout = "\
/Volumes/Slippi Dolphin Installer/Slippi Dolphin.app
/Volumes/Slippi Dolphin Installer 1/Slippi Dolphin.app
/Users/foo/Library/Application Support/Slippi Launcher/netplay/Slippi Dolphin.app
";
    let picked = parse_mdfind_output(stdout).unwrap();
    assert!(picked.contains("/netplay/"));
    assert!(!picked.contains("/Volumes/"));
}

#[test]
fn mdfind_output_falls_back_to_other_paths() {
    // No `/playback/` or `/netplay/` in the path — take what's
    // there (probably the legacy `/Applications/Slippi Dolphin.app`).
    let stdout = "/Applications/Slippi Dolphin.app\n";
    let picked = parse_mdfind_output(stdout).unwrap();
    assert_eq!(picked, "/Applications/Slippi Dolphin.app");
}

#[test]
fn mdfind_output_empty_returns_none() {
    assert!(parse_mdfind_output("").is_none());
    assert!(parse_mdfind_output("\n\n\n").is_none());
    // Only `/Volumes/*` results = no usable hit.
    assert!(parse_mdfind_output("/Volumes/X/Slippi Dolphin.app\n").is_none());
}

#[test]
fn macos_default_candidates_orders_playback_before_netplay() {
    // The `/Applications/Slippi Dolphin.app` legacy fallback is
    // always present regardless of HOME.
    for home in [None, Some("/Users/foo")] {
        let candidates = macos_default_candidates(home);
        assert!(candidates
            .iter()
            .any(|p| p == "/Applications/Slippi Dolphin.app"));
        let playback_idx = candidates.iter().position(|p| p.contains("/playback/"));
        let netplay_idx = candidates.iter().position(|p| p.contains("/netplay/"));
        if home.is_some() {
            assert!(playback_idx.is_some(), "playback candidate missing");
            assert!(netplay_idx.is_some(), "netplay candidate missing");
            assert!(
                playback_idx < netplay_idx,
                "playback must come before netplay"
            );
        }
    }
}

#[test]
fn windows_candidates_order_playback_before_netplay() {
    let c = windows_default_candidates(Some(r"C:\Users\me\AppData\Roaming"));
    assert_eq!(c.len(), 2);
    assert!(c[0].contains("playback"));
    assert!(c[0].ends_with("Slippi Dolphin.exe"));
    assert!(c[1].contains("netplay"));
}

#[test]
fn linux_dirs_prefer_xdg_then_playback() {
    let dirs = linux_dolphin_dirs(Some("/home/me/.config"), None);
    assert_eq!(dirs.len(), 2);
    assert!(dirs[0].ends_with("/Slippi Launcher/playback"));
    assert!(dirs[1].ends_with("/Slippi Launcher/netplay"));
}

#[test]
fn plan_with_default_uses_provided_default_when_override_missing() {
    let plan = plan_with_default(
        "/tmp/game.slp",
        &fake_comm(),
        None,
        None,
        Some("/custom/discovered/Slippi Dolphin".to_string()),
        PathStyle::Unix,
    )
    .expect("should succeed");
    assert_eq!(plan.program, "/custom/discovered/Slippi Dolphin");
}

#[test]
fn plan_with_default_override_still_wins_over_discovery() {
    // Even if discovery returned a path, an explicit override
    // trumps it. This keeps the Settings UI authoritative.
    let plan = plan_with_default(
        "/tmp/game.slp",
        &fake_comm(),
        Some("/custom/override/Slippi Dolphin"),
        None,
        Some("/discovered/path/Slippi Dolphin".to_string()),
        PathStyle::Unix,
    )
    .expect("should succeed");
    assert_eq!(plan.program, "/custom/override/Slippi Dolphin");
}

#[test]
fn plan_with_default_errors_when_both_missing() {
    let err = plan_with_default("/tmp/g.slp", &fake_comm(), None, None, None, PathStyle::Unix).unwrap_err();
    assert!(matches!(err, SlippiLaunchError::NoDefaultForPlatform));
}

#[test]
fn error_messages_are_user_readable() {
    // Locked in as a test so a future refactor has to deliberately
    // update the UI strings.
    assert!(SlippiLaunchError::NoReplayPath
        .message()
        .contains("re-ingest"));
    assert!(SlippiLaunchError::NoDefaultForPlatform
        .message()
        .contains("Settings"));
    let missing = SlippiLaunchError::ReplayFileMissing("/tmp/x.slp".to_string());
    assert!(missing.message().contains("/tmp/x.slp"));
    let spawn_err = SlippiLaunchError::SpawnFailed("permission denied".to_string());
    assert!(spawn_err.message().contains("permission denied"));
    let comm_err = SlippiLaunchError::CommFileFailed("disk full".to_string());
    assert!(comm_err.message().contains("disk full"));
    assert!(comm_err.message().contains("comm file"));
}

#[test]
fn discovery_paths_are_spelled_out() {
    assert_eq!(
        macos_default_candidates(Some("/Users/foo")),
        vec![
            "/Users/foo/Library/Application Support/Slippi Launcher/playback/Slippi Dolphin.app",
            "/Users/foo/Library/Application Support/Slippi Launcher/netplay/Slippi Dolphin.app",
            "/Applications/Slippi Dolphin.app",
        ]
    );
    assert_eq!(
        windows_default_candidates(Some(r"C:\Roaming"))[0],
        r"C:\Roaming\Slippi Launcher\playback\Slippi Dolphin.exe"
    );
    assert!(windows_default_candidates(None).is_empty());
    assert_eq!(
        linux_dolphin_dirs(Some("  "), Some("/home/me")),
        vec![
            "/home/me/.config/Slippi Launcher/playback",
            "/home/me/.config/Slippi Launcher/netplay",
        ]
    );
    assert!(linux_dolphin_dirs(None, None).is_empty());
}

#[test]
fn first_appimage_is_the_least_by_name() {
    let names = vec![
        "Slippi-b.AppImage".to_string(),
        "readme.txt".to_string(),
        "Slippi-a.appimage".to_string(),
        ".AppImage".to_string(),
    ];
    assert_eq!(
        first_appimage_in("/opt/slippi", &names),
        Some("/opt/slippi/Slippi-a.appimage".to_string())
    );
    assert_eq!(first_appimage_in("/opt/slippi", &vec!["x.txt".to_string()]), None);
}

#[test]
fn bundles_are_opened_through_the_bundle_on_macos_alone() {
    let plan = LaunchPlan {
        program: "/Applications/Foo.app/Contents/MacOS/Foo".to_string(),
        args: vec!["-b".to_string()],
    };
    let opened = spawn_plan(plan.clone(), Platform::MacOs);
    assert_eq!(opened.program, "open");
    assert_eq!(
        opened.args,
        vec!["-n", "-a", "/Applications/Foo.app", "--args", "-b"]
    );
    assert_eq!(spawn_plan(plan.clone(), Platform::Linux), plan);
    let bare = LaunchPlan { program: "/usr/bin/slippi".to_string(), args: vec![] };
    assert_eq!(spawn_plan(bare.clone(), Platform::MacOs), bare);
}

#[test]
fn bundle_and_inner_binary_invert_each_other() {
    for bundle in ["/Applications/Foo.app", "Foo.app", "/a/../b.c.app"] {
        let inner = predict_app_inner_binary(bundle, PathStyle::Unix).unwrap();
        assert_eq!(app_bundle_for_inner_binary(&inner), Some(bundle.to_string()));
    }
    // A bundle without a name has no way back.
    for untidy in ["/a/Foo.app/", "/a/Foo.app//", "/a/Foo.app/.", "/a/Foo.app/./"] {
        let inner = predict_app_inner_binary(untidy, PathStyle::Unix).unwrap();
        assert_eq!(app_bundle_for_inner_binary(&inner), Some("/a/Foo.app".to_string()));
    }
    let inner = predict_app_inner_binary("/a/.app", PathStyle::Unix).unwrap();
    assert_eq!(inner, "/a/.app/Contents/MacOS/");
    assert_eq!(app_bundle_for_inner_binary(&inner), None);
}

#[test]
fn control_characters_are_escaped() {
    assert_eq!(json_string_escape("a\n\r\t\u{1}\u{1f}é"), "\"a\\n\\r\\t\\u0001\\u001fé\"");
    assert_eq!(json_string_escape(""), "\"\"");
}

#[test]
fn comm_json_is_read_back_by_a_json_parser() {
    for path in ["/tmp/game.slp", "C:\\weird \"name\"\\\u{7}.slp", "/tmp/é\n"] {
        let text = build_comm_json(path);
        let v: serde_json::Value = serde_json::from_str(&text).expect("valid JSON");
        assert_eq!(v["replay"].as_str(), Some(path));
        assert_eq!(v["mode"].as_str(), Some("normal"));
    }
}

#[test]
fn comm_files_are_named_by_the_instant() {
    assert_eq!(comm_file_name(0), "stats-melee-slippi-0.json");
    assert_eq!(
        comm_file_name(1_700_000_000_123_456_789),
        "stats-melee-slippi-1700000000123456789.json"
    );
    assert_eq!(
        comm_file_failed("/tmp/x.json", "disk full").message(),
        "failed to write Slippi comm file: /tmp/x.json: disk full"
    );
}

#[test]
fn preflight_checks_the_path_before_the_file() {
    assert!(matches!(preflight("", true), Err(SlippiLaunchError::NoReplayPath)));
    assert!(matches!(preflight("", false), Err(SlippiLaunchError::NoReplayPath)));
    match preflight("/tmp/x.slp", false) {
        Err(SlippiLaunchError::ReplayFileMissing(p)) => assert_eq!(p, "/tmp/x.slp"),
        _ => panic!("expected a missing file"),
    }
    assert!(preflight("/tmp/x.slp", true).is_ok());
}

#[test]
fn launches_fail_in_order() {
    let found = || Some("/opt/slippi".to_string());
    let comm = || Ok("/tmp/c.json".to_string());
    assert!(matches!(
        launch_replay("", false, comm(), None, None, found(), Platform::Linux),
        Err(SlippiLaunchError::NoReplayPath)
    ));
    assert!(matches!(
        launch_replay("/r", false, comm(), None, None, found(), Platform::Linux),
        Err(SlippiLaunchError::ReplayFileMissing(_))
    ));
    assert!(matches!(
        launch_replay(
            "/r",
            true,
            Err(SlippiLaunchError::CommFileFailed("full".to_string())),
            None,
            None,
            found(),
            Platform::Linux
        ),
        Err(SlippiLaunchError::CommFileFailed(_))
    ));
    assert!(matches!(
        launch_replay("/r", true, comm(), None, None, None, Platform::Linux),
        Err(SlippiLaunchError::NoDefaultForPlatform)
    ));
    let plan = launch_replay("/r", true, comm(), None, None, found(), Platform::Linux).unwrap();
    assert_eq!(plan.program, "/opt/slippi");
    assert_eq!(plan.args, vec!["-i", "/tmp/c.json", "-b"]);
}

#[test]
fn plan_launch_takes_what_was_found() {
    let plan = plan_launch("/r", "/c", None, None, Some("/opt/s".to_string()), PathStyle::Unix).unwrap();
    assert_eq!(plan.program, "/opt/s");
    assert!(default_binary_for_platform(Platform::Windows).is_err());
    assert_eq!(resolve_override_binary("slippi", PathStyle::Unix), "slippi");
}

#[test]
fn bundles_are_told_by_the_names_of_their_system() {
    let path = r"C:\apps\Foo.app";
    assert_eq!(
        predict_app_inner_binary(path, PathStyle::Windows),
        Some(r"C:\apps\Foo.app\Contents\MacOS\Foo".to_string())
    );
    assert_eq!(
        predict_app_inner_binary(path, PathStyle::Unix),
        Some(r"C:\apps\Foo.app/Contents/MacOS/C:\apps\Foo".to_string())
    );
    assert_eq!(Platform::Windows.path_style(), PathStyle::Windows);
    assert_eq!(Platform::MacOs.path_style(), PathStyle::Unix);
}
