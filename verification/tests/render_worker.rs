use stats_melee::paths::PathStyle;
use stats_melee::render_worker::{
    build_dolphin_argv, build_ffmpeg_argv, chrono_like, dolphin_ini, dump_dirs, find_dump_files,
    first_file_ending, gfx_ini, is_save, poll_dolphin, render_dir_name, DolphinStep, RenderAction,
    RenderEvent, RenderRequest, RenderRun, RenderStage, DEBUG_LOG_PATH,
};

#[test]
fn dolphin_is_stopped_when_its_time_is_up() {
    assert_eq!(poll_dolphin(false, 0, 120), DolphinStep::Sleep(30));
    assert_eq!(poll_dolphin(false, 119, 120), DolphinStep::Sleep(30));
    assert_eq!(poll_dolphin(false, 120, 120), DolphinStep::Kill);
    assert_eq!(poll_dolphin(true, 500, 120), DolphinStep::Done);
}

#[test]
fn dolphin_argv_has_exec_movie_user() {
    let iso = "/games/melee.iso";
    let dtm = "/tmp/render/run.dtm";
    let user = "/tmp/render";
    let argv = build_dolphin_argv(iso, dtm, user);
    assert!(
        argv.iter().any(|a| a.starts_with("--exec=")),
        "--exec missing: {argv:?}"
    );
    assert!(
        argv.iter().any(|a| a.starts_with("--movie=")),
        "--movie missing: {argv:?}"
    );
    assert!(
        argv.iter().any(|a| a.starts_with("--user=")),
        "--user missing: {argv:?}"
    );
    // Guard against regressing to the Slippi-style argv that confuses
    // the older Dolphin parser.
    for forbidden in &["-i", "-b", "--batch"] {
        assert!(
            !argv.iter().any(|a| a == *forbidden),
            "{forbidden} leaked into argv: {argv:?}"
        );
    }
    assert_eq!(
        argv,
        vec!["--exec=/games/melee.iso", "--movie=/tmp/render/run.dtm", "--user=/tmp/render"]
    );
}

#[test]
fn ffmpeg_argv_has_three_inputs_and_amix() {
    let offset = 5.3;
    let argv = build_ffmpeg_argv(
        "/d/Dump/Frames/GALE01_foo_0.avi",
        "/d/Dump/Audio/GALE01_foo_dspdump.wav",
        "/d/Dump/Audio/GALE01_foo_dtkdump.wav",
        &format!("{offset:.6}"),
        "/o/out.tmp",
    );
    // Exactly three -i flags (video + dsp + dtk).
    assert_eq!(
        argv.iter().filter(|a| a.as_str() == "-i").count(),
        3,
        "expected 3 -i flags: {argv:?}"
    );
    // -filter_complex must contain amix.
    let has_amix = argv
        .windows(2)
        .any(|w| w[0] == "-filter_complex" && w[1].contains("amix"));
    assert!(has_amix, "amix filter missing: {argv:?}");
    // Exactly two -ss flags (one before DSP, one before DTK).
    assert_eq!(
        argv.iter().filter(|a| a.as_str() == "-ss").count(),
        2,
        "expected 2 -ss flags: {argv:?}"
    );
    // Output is the last element.
    assert_eq!(argv.last().unwrap(), "/o/out.tmp");
}

#[test]
fn ffmpeg_argv_offset_zero_when_audio_not_longer() {
    // offset clamped to 0 means the -ss values are "0.000000", still
    // present (two of them).
    let offset = 0.0;
    let argv = build_ffmpeg_argv(
        "/v.avi",
        "/d.wav",
        "/t.wav",
        &format!("{offset:.6}"),
        "/o.tmp",
    );
    assert_eq!(argv.iter().filter(|a| a.as_str() == "-ss").count(), 2);
    let ss_val = argv
        .windows(2)
        .find_map(|w| if w[0] == "-ss" { Some(&w[1]) } else { None })
        .unwrap();
    assert!(ss_val.starts_with("0."), "got: {ss_val}");
    assert_eq!(argv.len(), 28);
}

#[test]
fn dolphin_settings_dump_frames_and_sound() {
    let dolphin_ini = dolphin_ini();
    assert!(dolphin_ini.contains("CPUCore = 0"), "got: {dolphin_ini}");
    assert!(dolphin_ini.contains("SIDevice0 = 6"), "got: {dolphin_ini}");
    assert!(dolphin_ini.contains("DumpAudio = True"), "got: {dolphin_ini}");
    assert!(dolphin_ini.contains("DumpFrames = True"), "got: {dolphin_ini}");
    assert!(dolphin_ini.contains("SlotA = 8"), "got: {dolphin_ini}");
    assert!(dolphin_ini.contains("SlotB = 255"), "got: {dolphin_ini}");
    let gfx_ini = gfx_ini();
    assert!(gfx_ini.contains("DumpFrames = True"), "got: {gfx_ini}");
    assert!(gfx_ini.contains("DumpFramesAsImages = False"), "got: {gfx_ini}");
}

fn names(v: &[&str]) -> Vec<String> {
    v.iter().map(|s| s.to_string()).collect()
}

#[test]
fn dump_files_are_found_by_their_endings() {
    let frames = names(&["log.txt", "GALE01_x_0.avi", "GALE01_y_0.avi"]);
    let audio = names(&["a_dtkdump.wav", "a_dspdump.wav"]);
    let found = find_dump_files("/r", &frames, &audio, PathStyle::Unix).unwrap();
    assert_eq!(found.avi, "/r/Dump/Frames/GALE01_x_0.avi");
    assert_eq!(found.dsp, "/r/Dump/Audio/a_dspdump.wav");
    assert_eq!(found.dtk, "/r/Dump/Audio/a_dtkdump.wav");
    assert_eq!(find_dump_files("/r", &names(&[]), &audio, PathStyle::Unix).unwrap_err(), ".avi");
    assert_eq!(find_dump_files("/r", &frames, &names(&[]), PathStyle::Unix).unwrap_err(), "_dspdump.wav");
    assert_eq!(
        find_dump_files("/r", &frames, &names(&["a_dspdump.wav"]), PathStyle::Unix).unwrap_err(),
        "_dtkdump.wav"
    );
    assert_eq!(first_file_ending("d", &audio, ".mp3", PathStyle::Unix), None);
    assert_eq!(
        dump_dirs("/r", PathStyle::Unix),
        ("/r/Dump/Frames".to_string(), "/r/Dump/Audio".to_string())
    );
}

#[test]
fn render_paths_are_derived_from_the_request() {
    let req = RenderRequest {
        slp_path: "/r.slp".to_string(),
        slp_hash: "abc".to_string(),
        melee_iso: "/m.iso".to_string(),
        dolphin_binary: "/d".to_string(),
        ffmpeg_binary: "/usr/bin/ffmpeg".to_string(),
        mp4_out: "/v/abc.mp4".to_string(),
    };
    assert_eq!(req.partial_out(PathStyle::Unix), "/v/abc.tmp");
    assert_eq!(req.ffprobe_binary(PathStyle::Unix), "/usr/bin/ffprobe");
    let windows = RenderRequest {
        ffmpeg_binary: r"C:\f\ffmpeg.exe".to_string(),
        mp4_out: r"C:\v.d\abc.mp4".to_string(),
        ..req.clone()
    };
    assert_eq!(windows.ffprobe_binary(PathStyle::Windows), r"C:\f\ffprobe");
    assert_eq!(windows.partial_out(PathStyle::Windows), r"C:\v.d\abc.tmp");
    assert_eq!(render_dir_name(42), "stats-melee-render-42");
    assert_eq!(chrono_like(1700), "epoch+1700s");
    assert!(is_save("01-GALE-x.gci"));
    assert!(!is_save("x.gci.bak"));
}

fn asked() -> RenderRequest {
    RenderRequest {
        slp_path: "/r.slp".to_string(),
        slp_hash: "abc".to_string(),
        melee_iso: "/m.iso".to_string(),
        dolphin_binary: "/bin/dolphin".to_string(),
        ffmpeg_binary: "/bin/ffmpeg".to_string(),
        mp4_out: "/v/abc.mp4".to_string(),
    }
}

fn dumped() -> RenderEvent {
    RenderEvent::Listed(
        names(&["GALE01_0.avi"]),
        names(&["GALE01_dspdump.wav", "GALE01_dtkdump.wav"]),
    )
}

/// The event of a step that succeeds.
fn success(stage: RenderStage) -> RenderEvent {
    match stage {
        RenderStage::MakeMovie => RenderEvent::MovieMade(121),
        RenderStage::ListDumps => dumped(),
        RenderStage::ProbeSound => RenderEvent::Offset("5.300000".to_string()),
        _ => RenderEvent::Done,
    }
}

fn at(stage: RenderStage) -> RenderRun {
    let mut run = RenderRun::start(asked(), "/t/run".to_string(), PathStyle::Unix);
    while run.stage != stage {
        run.advance(success(run.stage));
    }
    run
}

#[test]
fn a_render_that_succeeds_goes_through_every_step() {
    let mut run = RenderRun::start(asked(), "/t/run".to_string(), PathStyle::Unix);
    let mut actions: Vec<String> = Vec::new();
    let mut told: Vec<String> = Vec::new();
    while run.stage != RenderStage::Over {
        if let Some(words) = run.progress() {
            told.push(words);
        }
        actions.push(format!("{:?}", run.action()));
        run.advance(success(run.stage));
    }
    assert_eq!(actions.len(), 14);
    assert_eq!(actions[0], r#"MakeMovie("/r.slp")"#);
    assert_eq!(actions[1], r#"CreateDir("/t/run")"#);
    assert_eq!(actions[2], r#"CreateDir("/t/run/Config")"#);
    assert!(actions[3].starts_with(r#"WriteText("/t/run/Config/Dolphin.ini", "#));
    assert!(actions[4].starts_with(r#"WriteText("/t/run/Config/GFX.ini", "#));
    assert_eq!(actions[5], r#"SeedSaves("/t/run")"#);
    assert_eq!(actions[6], r#"WriteMovie("/t/run/run.dtm")"#);
    assert_eq!(
        actions[7],
        r#"RunDolphin("/bin/dolphin", ["--exec=/m.iso", "--movie=/t/run/run.dtm", "--user=/t/run"], 121)"#
    );
    assert_eq!(actions[8], r#"ListDumps("/t/run/Dump/Frames", "/t/run/Dump/Audio")"#);
    assert_eq!(actions[9], r#"Probe("/bin/ffprobe", "/t/run/Dump/Frames/GALE01_0.avi")"#);
    assert_eq!(actions[10], r#"Probe("/bin/ffprobe", "/t/run/Dump/Audio/GALE01_dspdump.wav")"#);
    assert!(actions[11].contains("5.300000") && actions[11].contains("/v/abc.tmp"));
    assert_eq!(actions[12], r#"Rename("/v/abc.tmp", "/v/abc.mp4")"#);
    assert_eq!(actions[13], r#"RemoveDir("/t/run")"#);
    assert_eq!(
        told,
        vec![
            "Generating DTM",
            "Rendering frames — leave Dolphin open (~3 min)",
            "Muxing video (ffmpeg)",
        ]
    );
    assert!(matches!(run.action(), RenderAction::Finish(Ok(p)) if p == "/v/abc.mp4"));
}

#[test]
fn a_failed_step_ends_a_render_with_words_of_its_own() {
    let expected = [
        (RenderStage::MakeMovie, "generating DTM for /r.slp"),
        (RenderStage::CreateDir, "creating render dir /t/run"),
        (RenderStage::CreateConfig, "creating /t/run/Config"),
        (RenderStage::WriteDolphinIni, "writing Dolphin.ini"),
        (RenderStage::WriteGfxIni, "writing GFX.ini"),
        (RenderStage::WriteMovie, "writing /t/run/run.dtm"),
        (RenderStage::RunDolphin, "spawning /bin/dolphin"),
        (RenderStage::ProbeVideo, "running ffprobe on /t/run/Dump/Frames/GALE01_0.avi"),
        (RenderStage::ProbeSound, "running ffprobe on /t/run/Dump/Audio/GALE01_dspdump.wav"),
        (RenderStage::RunFfmpeg, "spawning /bin/ffmpeg"),
        (RenderStage::Rename, "renaming /v/abc.tmp → /v/abc.mp4"),
    ];
    for (stage, words) in expected {
        let mut run = at(stage);
        run.advance(RenderEvent::Failed);
        match run.action() {
            RenderAction::Finish(Err(e)) => assert_eq!(e, words),
            other => panic!("{other:?}"),
        }
    }
    let mut run = at(RenderStage::RunDolphin);
    run.advance(RenderEvent::FailedWith("polling Dolphin".to_string()));
    assert!(matches!(run.action(), RenderAction::Finish(Err(e)) if e == "polling Dolphin"));
    let mut run = at(RenderStage::ListDumps);
    run.advance(RenderEvent::Listed(names(&["a.avi"]), names(&["a_dspdump.wav"])));
    match run.action() {
        RenderAction::Finish(Err(e)) => {
            assert_eq!(e, format!("no dump files in /t/run\nDiagnostic log: {DEBUG_LOG_PATH}"))
        }
        other => panic!("{other:?}"),
    }
}

#[test]
fn saves_and_cleaning_up_are_optional() {
    let mut run = at(RenderStage::SeedSaves);
    run.advance(RenderEvent::Failed);
    assert_eq!(run.stage, RenderStage::WriteMovie);
    let mut run = at(RenderStage::RemoveDir);
    run.advance(RenderEvent::FailedWith("busy".to_string()));
    assert!(matches!(run.action(), RenderAction::Finish(Ok(_))));
}
