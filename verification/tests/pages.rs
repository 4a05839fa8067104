use std::path::PathBuf;

use stats_melee::app::{Page, StatsMeleeApp};
use stats_melee::config::AppConfig;
use stats_melee::gamedata::AttackName;
use stats_melee::pages::{
    added_cell, character_choices, db_path_text, kill_moves, longest_text, places_of, played_cell,
    record_text, stage_choices, streak_text, totals_at, KillMoves, OutcomeMark, ReplayTable,
    StatsBody, TableClicks, Totals, ViewerBody, RENDER_VIDEO_FEATURE_ENABLED,
};
use stats_melee::paths::PathStyle;
use stats_melee::replay_list::{ReplayRow, SortDirection, SortKey};
use stats_melee::viewer::ViewerState;

fn started() -> StatsMeleeApp {
    let mut c = AppConfig::default();
    c.replay_dir = Some("/replays".to_string());
    c.user_player_code = "ME#1".to_string();
    StatsMeleeApp::new(c, PathStyle::Unix)
}

fn listed(id: i32, won: Option<bool>, seconds: i32) -> ReplayRow {
    ReplayRow {
        game_id: id,
        slots: [None, None, None, None],
        stage_id: 2 + id,
        duration_seconds: seconds,
        user_won: won,
        ingested_at: format!("2026-04-0{id} 10:00:00"),
        played_at: None,
    }
}

fn with_rows() -> StatsMeleeApp {
    let mut a = started();
    a.reload_rows(Ok(vec![
        listed(1, Some(true), 60),
        listed(2, Some(false), 120),
        listed(3, None, 30),
    ]));
    a
}

fn no_clicks() -> TableClicks {
    TableClicks { sort: None, view: None, cancel: false, arm: None, confirm: None }
}

fn places(a: &StatsMeleeApp) -> Vec<usize> {
    match a.replay_table() {
        ReplayTable::Rows(v) => v,
        ReplayTable::Empty(why) => panic!("{why}"),
    }
}

fn why_empty(a: &StatsMeleeApp) -> &'static str {
    match a.replay_table() {
        ReplayTable::Empty(why) => why,
        ReplayTable::Rows(v) => panic!("{v:?}"),
    }
}

#[test]
fn the_table_says_why_it_is_empty() {
    let mut a = started();
    assert_eq!(why_empty(&a), "No replays ingested yet. Click \"Scan for new replays\".");
    assert_eq!(a.replay_count(), None);
    a = with_rows();
    assert_eq!(places(&a), vec![0, 1, 2]);
    assert_eq!(a.replay_count(), Some("· 3 replays".to_string()));
    assert_eq!(a.showing(), None);
    a.filter.stage = Some(4);
    assert_eq!(places(&a), vec![1]);
    assert_eq!(a.showing(), Some("Showing 1 of 3".to_string()));
    a.filter.stage = Some(30);
    assert_eq!(
        why_empty(&a),
        "No replays match the current filters. Clear them to see all rows."
    );
}

#[test]
fn clicks_on_the_table_act_in_order() {
    let mut a = with_rows();
    let step = a.table_clicked(TableClicks { sort: Some(SortKey::Duration), ..no_clicks() });
    assert_eq!((a.sort_key, a.sort_direction), (SortKey::Duration, SortDirection::Desc));
    assert_eq!(a.rows[0].game_id, 2);
    assert!(!step.load_viewer && step.delete.is_none());

    let step = a.table_clicked(TableClicks { arm: Some(2), ..no_clicks() });
    assert_eq!(a.delete_confirm_game_id, Some(2));
    assert_eq!(step.delete, None);
    a.table_clicked(TableClicks { cancel: true, ..no_clicks() });
    assert_eq!(a.delete_confirm_game_id, None);
    a.table_clicked(TableClicks { cancel: true, arm: Some(3), ..no_clicks() });
    assert_eq!(a.delete_confirm_game_id, Some(3));

    let step = a.table_clicked(TableClicks { confirm: Some(3), ..no_clicks() });
    assert_eq!(step.delete, Some(3));
    a.delete_replay(3, Some(Ok(1)), None);
    let status = a.delete_status().unwrap();
    assert!(status.good);
    assert_eq!(status.words, "✓ Deleted game #3.");

    let step = a.table_clicked(TableClicks { view: Some(1), ..no_clicks() });
    assert!(step.load_viewer);
    assert_eq!((a.page, a.viewing_game_id), (Page::ReplayViewer, Some(1)));
    assert!(a.delete_status().is_none());
}

#[test]
fn failures_are_told_with_a_warning() {
    let mut a = with_rows();
    a.delete_replay(9, Some(Ok(0)), None);
    let status = a.delete_status().unwrap();
    assert!(!status.good);
    assert_eq!(status.words, "⚠ Game #9 not found (already deleted?)");
    assert!(a.launch_status().is_none());
    a.last_slippi_launch = Some(Err("gone".to_string()));
    assert_eq!(a.launch_status().unwrap().words, "⚠ gone");
    a.last_slippi_launch = Some(Ok(()));
    assert_eq!(a.launch_status().unwrap().words, "✓ Launched in Slippi.");
    assert!(a.render_result().is_none());
    a.last_render_summary = Some(Ok("/v/a.mp4".to_string()));
    assert_eq!(a.render_result().unwrap().words, "✓ Rendered: /v/a.mp4");
    a.last_render_summary = Some(Err("no".to_string()));
    assert_eq!(a.render_result().unwrap().words, "⚠ no");
    a.render_in_flight_hash = Some("h".to_string());
    a.render_status = Some("Starting render".to_string());
    assert!(a.render_result().is_none());
    assert!(!RENDER_VIDEO_FEATURE_ENABLED);
}

#[test]
fn cells_show_outcomes_and_dates() {
    let glyphs: Vec<&str> = [Some(true), Some(false), None]
        .iter()
        .map(|won| OutcomeMark::of(*won).glyph())
        .collect();
    assert_eq!(glyphs, vec!["W", "L", "–"]);
    let mut r = listed(1, None, 0);
    assert_eq!(played_cell(&r), ("—", "No play date — re-scan to add it"));
    assert_eq!(added_cell(&r), "2026-04-01");
    r.played_at = Some("2026-03-02T10:00:00Z".to_string());
    assert_eq!(played_cell(&r), ("2026-03-02", "2026-03-02T10:00:00Z"));
    r.ingested_at = "short".to_string();
    assert_eq!(added_cell(&r), "—");
}

#[test]
fn filters_stand_beside_two_pages() {
    let mut a = started();
    assert!(a.filters_shown());
    assert_eq!(a.filters_label(), "◀ Hide filters");
    a.toggle_filters();
    assert!(!a.filters_shown());
    assert_eq!(a.filters_label(), "☰ Filters");
    a.toggle_filters();
    a.navigate_to(Page::Analytics);
    assert!(a.filters_shown());
    a.navigate_to(Page::Career);
    assert!(!a.filters_shown());
    assert_eq!(character_choices(), (0..27).collect::<Vec<i32>>());
    assert_eq!(stage_choices(), vec![2, 3, 8, 28, 31, 32]);
}

#[test]
fn statistics_wait_for_their_summary() {
    let mut a = started();
    assert_eq!(a.analytics_body(), StatsBody::Loading);
    a.has_filtered = true;
    assert_eq!(a.analytics_body(), StatsBody::Summary);
    assert_eq!(a.career_body(), StatsBody::Loading);
    a.reload_summary(Ok(PathBuf::from("/db")));
    assert_eq!(a.career_body(), StatsBody::Computing);
    a.summary_loading = false;
    a.summary_error = Some("no".to_string());
    assert_eq!(a.career_body(), StatsBody::Nothing);
    a.config.user_player_code = " ".to_string();
    assert_eq!(a.analytics_body(), StatsBody::SetCode);
    assert_eq!(
        a.no_games_text("ME#1"),
        "No games recorded yet for ME#1. Ingest some replays first."
    );
    a.filter.stage = Some(2);
    assert_eq!(a.no_games_text("ME#1"), "No games match the current filter.");
}

#[test]
fn a_refresh_makes_every_summary_anew() {
    let mut a = with_rows();
    a.has_career = true;
    let first = a.reload_summary(Ok(PathBuf::from("/db"))).unwrap();
    assert!(first.recompute_career);
    let second = a.reload_summary(Ok(PathBuf::from("/db"))).unwrap();
    assert!(!second.recompute_career);
    let third = a.refresh_summary(Ok(PathBuf::from("/db"))).unwrap();
    assert!(third.recompute_career);
    assert!(a.summary_loading);
    assert!(a.refresh_summary(Err("no path".to_string())).is_none());
    assert!(a.summary_loading);
    assert_eq!(a.summary_error, Some("no path".to_string()));
}

#[test]
fn totals_count_the_rows_that_are_meant() {
    let a = with_rows();
    let ids: Vec<i32> = a.rows.iter().map(|r| r.game_id).collect();
    assert_eq!(ids, vec![3, 2, 1]);
    assert_eq!(totals_at(&a.rows, &vec![]), Totals { games: 0, wins: 0, seconds: 0 });
    assert_eq!(totals_at(&a.rows, &vec![0, 1, 2]), Totals { games: 3, wins: 1, seconds: 210 });
    assert_eq!(totals_at(&a.rows, &vec![1]), Totals { games: 1, wins: 0, seconds: 120 });
}

#[test]
fn records_and_streaks_read_plainly() {
    assert_eq!(record_text(10, 7), "7–3");
    assert_eq!(record_text(2, 5), "5–0");
    assert_eq!(streak_text(3), "3-game win streak");
    assert_eq!(streak_text(-2), "2-game loss streak");
    assert_eq!(streak_text(0), "No active streak");
    assert_eq!(longest_text(4, 2), "Longest: 4 W · 2 L");
}

#[test]
fn kill_moves_need_a_character() {
    let names = vec![AttackName { id: 14, name: "Up B".to_string() }];
    let moves = vec![(14, 5), (99, 1)];
    match kill_moves(None, &moves, &names) {
        KillMoves::Words(w) => {
            assert_eq!(w, "Pick a character to see your most common kill moves.")
        }
        KillMoves::Rows(v) => panic!("{v:?}"),
    }
    match kill_moves(Some(1), &vec![], &names) {
        KillMoves::Words(w) => assert_eq!(w, "No kill moves recorded yet."),
        KillMoves::Rows(v) => panic!("{v:?}"),
    }
    match kill_moves(Some(1), &moves, &names) {
        KillMoves::Rows(v) => {
            assert_eq!(v, vec![("Up B".to_string(), 5), ("attack #99".to_string(), 1)])
        }
        KillMoves::Words(w) => panic!("{w}"),
    }
}

#[test]
fn the_viewer_tells_why_it_shows_nothing() {
    let mut a = started();
    match a.viewer_body() {
        ViewerBody::Words(w) => assert_eq!(w, "No replay selected."),
        ViewerBody::Page => panic!("a page"),
    }
    a.open_viewer(1);
    a.reload_viewer(Some(Err("gone".to_string())));
    match a.viewer_body() {
        ViewerBody::Words(w) => assert_eq!(w, "Couldn't load replay: gone"),
        ViewerBody::Page => panic!("a page"),
    }
    a.reload_viewer(Some(Ok(ViewerState {
        game_id: 1,
        replay_path: None,
        stage_id: 2,
        duration_seconds: 0,
        ingested_at: String::new(),
        players: Vec::new(),
        analysis: Err(String::new()),
        user_perspective: None,
        key_moments: Vec::new(),
    })));
    assert!(matches!(a.viewer_body(), ViewerBody::Page));
}

#[test]
fn settings_show_what_is_set() {
    let mut a = StatsMeleeApp::new(AppConfig::default(), PathStyle::Unix);
    assert_eq!(a.replay_dir_text(), "(not set)");
    assert_eq!(a.melee_iso_text(), "(not set)");
    assert_eq!(a.launcher_text(), "(not set)");
    a.pick_replay_dir("/r".to_string());
    a.pick_melee_iso(Some("/m.iso".to_string()));
    a.pick_launcher(Some("/l".to_string()));
    a.pick_slippi_binary("/d".to_string());
    assert_eq!((a.replay_dir_text(), a.melee_iso_text(), a.launcher_text()), ("/r", "/m.iso", "/l"));
    assert_eq!(a.config.slippi_playback_command, Some("/d".to_string()));
    a.pick_melee_iso(None);
    assert_eq!(a.melee_iso_text(), "(not set)");
    assert_eq!(db_path_text(Ok("/db".to_string())), "/db");
    assert_eq!(db_path_text(Err("no home".to_string())), "(unresolved: no home)");
    assert_eq!(
        a.scan_hint(),
        "Walk the configured replay folder and ingest any .slp files we haven't seen before (off the UI thread)."
    );
    a.ingest_replays(Ok(PathBuf::from("/db")));
    assert_eq!(a.scan_hint(), "A scan is already running");
}

#[test]
fn games_are_found_again_by_their_ids() {
    let rows = vec![listed(1, None, 1), listed(2, None, 1), listed(3, None, 1), listed(1, None, 1)];
    assert_eq!(places_of(&rows, &vec![3, 1, 9]), vec![0, 2, 3]);
    assert!(places_of(&rows, &vec![]).is_empty());
}

#[test]
fn rows_without_dates_are_kept_until_a_date_counts() {
    let mut odd = listed(1, None, 1);
    odd.ingested_at = "2026-04-0é 10:00".to_string();
    let mut a = started();
    a.reload_rows(Ok(vec![odd, listed(2, None, 1)]));
    assert!(a.filter.judges_all(&a.rows));
    assert_eq!(places(&a).len(), 2);
    a.filter.date_from = "2026-01-01".to_string();
    assert!(a.filter.judges_all(&a.rows));
    a.filter.added_from = "2026-01-01".to_string();
    assert!(!a.filter.judges_all(&a.rows));
}
