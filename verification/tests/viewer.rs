use std::collections::HashMap;

use stats_melee::gamedata::AttackName;
use stats_melee::models::{Game, GamePlayer, Punish};
use stats_melee::viewer::{
    bucket_color, compute_user_perspective, derive_analysis, intro_blurb,
    key_moments_from_punishes, legend_labels, load_viewer, ordinal, scrub_runs, user_palette,
    AnalysisPlan, BarColor, CombatState, KeyMoment, KeyMomentKind, ReplayAnalysis,
    UserPerspective, ViewerPlayer, ViewerState,
};

#[test]
fn ordinal_covers_4_slots() {
    assert_eq!(ordinal(0), "1st");
    assert_eq!(ordinal(1), "2nd");
    assert_eq!(ordinal(2), "3rd");
    assert_eq!(ordinal(3), "4th");
    assert_eq!(ordinal(99), "?");
}

#[test]
fn stage_name_falls_back_to_unknown() {
    let s = ViewerState {
        game_id: 1,
        replay_path: None,
        stage_id: 999,
        duration_seconds: 0,
        ingested_at: String::new(),
        players: Vec::new(),
        analysis: Err("no data".to_string()),
        user_perspective: None,
        key_moments: Vec::new(),
    };
    assert_eq!(s.stage_name(), "Unknown");
}

#[test]
fn duration_display_matches_mmss() {
    let mk = |secs| ViewerState {
        game_id: 0,
        replay_path: None,
        stage_id: 0,
        duration_seconds: secs,
        ingested_at: String::new(),
        players: Vec::new(),
        analysis: Err("".to_string()),
        user_perspective: None,
        key_moments: Vec::new(),
    };
    assert_eq!(mk(0).duration_display(), "0:00");
    assert_eq!(mk(7).duration_display(), "0:07");
    assert_eq!(mk(125).duration_display(), "2:05");
    assert_eq!(mk(-5).duration_display(), "0:00");
}

#[test]
fn viewer_player_character_name_resolves() {
    let p = ViewerPlayer {
        placement: 0,
        code: "X".into(),
        character_id: 1, // Fox
        port: 0,
    };
    assert_eq!(p.character_name(), "Fox");

    let p = ViewerPlayer {
        placement: 1,
        code: "Y".into(),
        character_id: 999,
        port: 1,
    };
    assert_eq!(p.character_name(), "Unknown");
}

/// Default port-relative palette — what the bar uses when no
/// user perspective is set.
fn default_palette() -> (BarColor, BarColor) {
    user_palette(None)
}

#[test]
fn bucket_color_priority_trade_over_adv() {
    let slice = [
        CombatState::Neutral,
        CombatState::AdvP1,
        CombatState::Trade,
    ];
    assert_eq!(bucket_color(&slice, default_palette()), BarColor::Trade);
}

#[test]
fn bucket_color_both_sides_advantage_renders_as_trade() {
    // Even without an explicit Trade frame, seeing both players
    // advantaged within the same pixel window means "something
    // exchange-y happened" — color it as a trade.
    let slice = [CombatState::AdvP1, CombatState::AdvP2];
    assert_eq!(bucket_color(&slice, default_palette()), BarColor::Trade);
}

#[test]
fn bucket_color_single_side_advantage() {
    let palette = default_palette();
    assert_eq!(
        bucket_color(&[CombatState::AdvP1, CombatState::Neutral], palette),
        BarColor::Green
    );
    assert_eq!(
        bucket_color(&[CombatState::Neutral, CombatState::AdvP2], palette),
        BarColor::Red
    );
}

#[test]
fn bucket_color_all_neutral() {
    let slice = [CombatState::Neutral; 4];
    assert_eq!(bucket_color(&slice, default_palette()), BarColor::Neutral);
}

#[test]
fn bucket_color_empty_is_neutral() {
    assert_eq!(bucket_color(&[], default_palette()), BarColor::Neutral);
}

#[test]
fn user_palette_no_perspective_keeps_port_relative_colors() {
    // No perspective set → green = AdvP1, red = AdvP2 (the
    // arbitrary-but-stable port-relative default).
    assert_eq!(user_palette(None), (BarColor::Green, BarColor::Red));
}

#[test]
fn user_palette_p1_is_green_for_user() {
    assert_eq!(
        user_palette(Some(UserPerspective::P1)),
        (BarColor::Green, BarColor::Red)
    );
}

#[test]
fn user_palette_p2_flips_palette() {
    assert_eq!(
        user_palette(Some(UserPerspective::P2)),
        (BarColor::Red, BarColor::Green)
    );
}

#[test]
fn bucket_color_uses_passed_palette_for_perspective_flip() {
    // P2-perspective palette should color a P2-advantage frame
    // green (= "you on advantage") and a P1-advantage frame red.
    let palette = user_palette(Some(UserPerspective::P2));
    assert_eq!(
        bucket_color(&[CombatState::AdvP2], palette),
        BarColor::Green,
        "P2 advantage with P2 perspective should be green"
    );
    assert_eq!(
        bucket_color(&[CombatState::AdvP1], palette),
        BarColor::Red,
        "P1 advantage with P2 perspective should be red"
    );
}

fn analysis_with_ports(p1: usize, p2: usize) -> ReplayAnalysis {
    ReplayAnalysis {
        combat: vec![CombatState::Neutral],
        p1_port_idx: p1,
        p2_port_idx: p2,
    }
}

fn player(code: &str, port: i32) -> ViewerPlayer {
    ViewerPlayer {
        placement: 0,
        code: code.to_string(),
        character_id: 0,
        port,
    }
}

#[test]
fn perspective_none_when_user_code_unset() {
    let players = vec![player("ME#1", 0), player("OPP#2", 1)];
    let analysis = analysis_with_ports(0, 1);
    assert_eq!(
        compute_user_perspective(None, &players, Some(&analysis)),
        None
    );
    assert_eq!(
        compute_user_perspective(Some(""), &players, Some(&analysis)),
        None
    );
    assert_eq!(
        compute_user_perspective(Some("   "), &players, Some(&analysis)),
        None
    );
}

#[test]
fn perspective_none_when_no_analysis() {
    let players = vec![player("ME#1", 0), player("OPP#2", 1)];
    assert_eq!(compute_user_perspective(Some("ME#1"), &players, None), None);
}

#[test]
fn perspective_p1_when_user_is_lower_port() {
    let players = vec![player("ME#1", 0), player("OPP#2", 1)];
    let analysis = analysis_with_ports(0, 1);
    assert_eq!(
        compute_user_perspective(Some("ME#1"), &players, Some(&analysis)),
        Some(UserPerspective::P1)
    );
}

#[test]
fn perspective_p2_when_user_is_higher_port() {
    let players = vec![player("ME#1", 2), player("OPP#2", 0)];
    let analysis = analysis_with_ports(0, 2);
    assert_eq!(
        compute_user_perspective(Some("ME#1"), &players, Some(&analysis)),
        Some(UserPerspective::P2)
    );
}

#[test]
fn perspective_none_when_user_code_no_match() {
    let players = vec![player("OTHER#1", 0), player("OPP#2", 1)];
    let analysis = analysis_with_ports(0, 1);
    assert_eq!(
        compute_user_perspective(Some("ME#1"), &players, Some(&analysis)),
        None
    );
}

fn punish(
    attacker_id: i32,
    start_frame: i32,
    end_frame: i32,
    hit_count: i32,
    did_kill: bool,
    kill_move: Option<i32>,
) -> Punish {
    Punish {
        id: 0,
        game_id: 0,
        attacker_id,
        victim_id: 0,
        start_frame,
        end_frame,
        hit_count,
        did_kill: if did_kill { 1 } else { 0 },
        kill_move,
    }
}

fn names() -> Vec<AttackName> {
    vec![AttackName { id: 11, name: "forward smash".to_string() }]
}

#[test]
fn key_moments_skips_short_combos_that_dont_kill() {
    let mut gp_to_port = HashMap::new();
    gp_to_port.insert(1, 0);
    let analysis = analysis_with_ports(0, 1);

    // A 2-hit non-kill — below LONG_COMBO_THRESHOLD, no marker.
    let punishes = vec![punish(1, 100, 110, 2, false, None)];
    let out = key_moments_from_punishes(&punishes, &gp_to_port, &analysis, &names());
    assert!(out.is_empty(), "short combo should not earn a marker: {out:?}");
}

#[test]
fn key_moments_keeps_kills_regardless_of_hit_count() {
    // Even a 1-hit kill (a sweetspotted kill move) is the most
    // important kind of marker — must always render.
    let mut gp_to_port = HashMap::new();
    gp_to_port.insert(1, 0);
    let analysis = analysis_with_ports(0, 1);

    let punishes = vec![punish(1, 100, 105, 1, true, Some(11))];
    let out = key_moments_from_punishes(&punishes, &gp_to_port, &analysis, &names());
    assert_eq!(out.len(), 1);
    assert_eq!(out[0].kind, KeyMomentKind::Kill);
    // Kill markers anchor at end_frame (moment of impact).
    assert_eq!(out[0].frame, 105);
    // P1 attacked (gp 1 → port 0 == p1_port_idx).
    assert!(out[0].by_p1);
    // Tooltip resolves the attack id through the gamedata table.
    assert!(
        out[0].label.contains("forward smash"),
        "kill label should resolve attack #11 to forward smash, got {:?}",
        out[0].label
    );
    assert!(out[0].label.contains("1 hits"), "got: {:?}", out[0].label);
}

#[test]
fn key_moments_long_combo_anchors_at_start_frame() {
    let mut gp_to_port = HashMap::new();
    gp_to_port.insert(1, 0);
    let analysis = analysis_with_ports(0, 1);

    // 5-hit combo that didn't kill — over the threshold, anchors
    // at start_frame so the marker sits at the start of the
    // momentum, not the end.
    let punishes = vec![punish(1, 200, 280, 5, false, None)];
    let out = key_moments_from_punishes(&punishes, &gp_to_port, &analysis, &names());
    assert_eq!(out.len(), 1);
    assert_eq!(out[0].kind, KeyMomentKind::LongCombo);
    assert_eq!(out[0].frame, 200);
    assert_eq!(out[0].label, "5-hit combo");
}

#[test]
fn key_moments_attribute_to_higher_port_attacker() {
    let mut gp_to_port = HashMap::new();
    gp_to_port.insert(7, 2); // attacker on port 2
    let analysis = analysis_with_ports(0, 2);

    let punishes = vec![punish(7, 50, 60, 4, false, None)];
    let out = key_moments_from_punishes(&punishes, &gp_to_port, &analysis, &names());
    assert_eq!(out.len(), 1);
    assert!(
        !out[0].by_p1,
        "attacker on p2_port_idx should set by_p1 = false"
    );
}

#[test]
fn key_moments_drops_punishes_with_unresolvable_attacker() {
    // Attacker gp_id isn't in the port map — this shouldn't happen
    // for properly-ingested 1v1 games, but we silently drop rather
    // than panic.
    let gp_to_port = HashMap::new();
    let analysis = analysis_with_ports(0, 1);
    let punishes = vec![punish(99, 0, 5, 5, true, Some(11))];
    let out = key_moments_from_punishes(&punishes, &gp_to_port, &analysis, &names());
    assert!(out.is_empty());
}

#[test]
fn key_moments_unknown_attack_id_falls_back_in_label() {
    // attack id 23 isn't in the universal name table — we should
    // still emit a marker with the "attack #N" placeholder.
    let mut gp_to_port = HashMap::new();
    gp_to_port.insert(1, 0);
    let analysis = analysis_with_ports(0, 1);
    let punishes = vec![punish(1, 0, 10, 3, true, Some(23))];
    let out = key_moments_from_punishes(&punishes, &gp_to_port, &analysis, &names());
    assert_eq!(out.len(), 1);
    assert!(
        out[0].label.contains("attack #23"),
        "got: {:?}",
        out[0].label
    );
}

#[test]
fn moment_labels_are_spelled_out() {
    let mut ports = HashMap::new();
    ports.insert(1, 0);
    let analysis = analysis_with_ports(0, 1);
    let punishes = vec![
        punish(1, 0, 10, 3, true, Some(11)),
        punish(1, 20, 30, 2, true, None),
    ];
    let out = key_moments_from_punishes(&punishes, &ports, &analysis, &names());
    assert_eq!(out[0].label, "Kill: forward smash (3 hits)");
    assert_eq!(out[1].label, "Kill (2 hits)");
}

#[test]
fn runs_cover_the_bar_and_join_equal_pixels() {
    let n = CombatState::Neutral;
    let a = CombatState::AdvP1;
    let b = CombatState::AdvP2;
    let states = [n, n, a, a, a, b, n, n];
    let runs: Vec<_> = scrub_runs(&states, 4, user_palette(None))
        .iter()
        .map(|r| (r.start, r.end, r.color))
        .collect();
    assert_eq!(
        runs,
        vec![
            (0, 1, BarColor::Neutral),
            (1, 2, BarColor::Green),
            (2, 3, BarColor::Trade),
            (3, 4, BarColor::Neutral),
        ]
    );
    // More pixels than frames: each frame is stretched.
    let wide: Vec<_> = scrub_runs(&[a, b], 6, user_palette(None))
        .iter()
        .map(|r| (r.start, r.end, r.color))
        .collect();
    assert_eq!(wide, vec![(0, 3, BarColor::Green), (3, 6, BarColor::Red)]);
    assert!(scrub_runs(&[], 6, user_palette(None)).is_empty());
    assert!(scrub_runs(&[a], 0, user_palette(None)).is_empty());
}

#[test]
fn one_frame_of_advantage_colors_the_bar() {
    for at in [0, 1, 499, 500, 997, 999] {
        for pixels in [1, 7, 640, 1500] {
            let mut states = vec![CombatState::Neutral; 1000];
            states[at] = CombatState::AdvP2;
            let runs = scrub_runs(&states, pixels, user_palette(None));
            assert!(runs.iter().any(|r| r.color == BarColor::Red), "{} {}", at, pixels);
        }
    }
}

#[test]
fn bar_colors_have_their_shades() {
    assert_eq!(BarColor::Neutral.rgb(), (70, 80, 95));
    assert_eq!(BarColor::Green.rgb(), (60, 170, 90));
    assert_eq!(BarColor::Red.rgb(), (220, 80, 80));
    assert_eq!(BarColor::Trade.rgb(), (230, 170, 40));
}

#[test]
fn words_follow_the_perspective() {
    assert!(intro_blurb(Some(UserPerspective::P1)).contains("green = you have advantage"));
    assert!(intro_blurb(None).contains("green = lower-port player has advantage"));
    assert_eq!(legend_labels(Some(UserPerspective::P2)), ("Opponent", "You"));
    assert_eq!(legend_labels(None), ("P1 advantage", "P2 advantage"));
    assert_eq!(player("X", 1).port_label(), "P2");
}

fn game(replay_path: Option<&str>, second: i32) -> Game {
    Game {
        id: 7,
        first: Some(1),
        second: None,
        third: Some(second),
        fourth: None,
        stage: 31,
        time: 200,
        ingested_at: "2026-04-20 10:00:00".to_string(),
        started_at: None,
        replay_path: replay_path.map(|s| s.to_string()),
        content_hash: None,
    }
}

fn roster() -> Vec<GamePlayer> {
    vec![
        GamePlayer { id: 1, code: "OPP#2".to_string(), character: 1, port: 0 },
        GamePlayer { id: 2, code: "ME#1".to_string(), character: 2, port: 3 },
    ]
}

#[test]
fn pages_hold_players_perspective_and_a_forward_timeline() {
    let punishes = vec![
        punish(1, 100, 400, 2, true, None),
        punish(2, 300, 350, 5, false, None),
    ];
    let page = load_viewer(
        game(Some("/r.slp"), 2),
        &roster(),
        Ok(analysis_with_ports(0, 3)),
        &punishes,
        &names(),
        Some(" ME#1 "),
    )
    .unwrap();
    let shown: Vec<_> = page.players.iter().map(|p| (p.placement, p.code.as_str())).collect();
    assert_eq!(shown, vec![(0, "OPP#2"), (2, "ME#1")]);
    assert_eq!(page.user_perspective, Some(UserPerspective::P2));
    // The kill ends after the combo begins, so the combo comes first.
    let frames: Vec<_> = page.key_moments.iter().map(|m| (m.frame, m.by_p1)).collect();
    assert_eq!(frames, vec![(300, false), (400, true)]);
}

#[test]
fn pages_without_a_replay_keep_their_facts() {
    let page = load_viewer(
        game(None, 2),
        &roster(),
        Ok(analysis_with_ports(0, 3)),
        &vec![punish(1, 0, 5, 9, true, None)],
        &names(),
        Some("ME#1"),
    )
    .unwrap();
    assert_eq!(page.players.len(), 2);
    assert!(page.key_moments.is_empty());
    assert_eq!(page.user_perspective, None);
    match page.analysis {
        Err(msg) => assert_eq!(
            msg,
            "this game was ingested before replay-path tracking — re-ingest to enable the scrub bar"
        ),
        Ok(_) => panic!("no analysis without a path"),
    }
    let missing = load_viewer(
        game(None, 9),
        &roster(),
        Err(String::new()),
        &vec![],
        &names(),
        None,
    );
    assert_eq!(missing.unwrap_err().id, 9);
}

#[test]
fn analyses_come_from_the_cache_only_under_a_hash() {
    match derive_analysis("/r.slp", false, Some("abc")) {
        AnalysisPlan::Missing(msg) => assert_eq!(
            msg,
            "replay file not found on disk: /r.slp\n(was the folder moved or renamed?)"
        ),
        _ => panic!("a missing file has no frames"),
    }
    assert!(matches!(derive_analysis("/r.slp", true, None), AnalysisPlan::Parse));
    assert!(matches!(derive_analysis("/r.slp", true, Some("abc")), AnalysisPlan::Cached));
}

#[test]
fn markers_have_the_color_of_the_player_who_hit() {
    let mark = |by_p1: bool| KeyMoment {
        frame: 0,
        kind: KeyMomentKind::Kill,
        by_p1,
        label: String::new(),
    };
    assert_eq!(mark(true).color(None), BarColor::Green);
    assert_eq!(mark(false).color(None), BarColor::Red);
    assert_eq!(mark(true).color(Some(UserPerspective::P2)), BarColor::Red);
    assert_eq!(mark(false).color(Some(UserPerspective::P2)), BarColor::Green);
}
