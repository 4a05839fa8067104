use std::path::PathBuf;

use stats_melee::app::{DbStep, Page, Polled, RenderStep, StatsMeleeApp};
use stats_melee::config::AppConfig;
use stats_melee::paths::PathStyle;
use stats_melee::render_worker::RenderMsg;
use stats_melee::replay_list::{ReplayRow, SortDirection, SortKey};
use stats_melee::slippi::SlippiLaunchError;
use stats_melee::viewer::ViewerState;

fn configured() -> AppConfig {
    let mut c = AppConfig::default();
    c.replay_dir = Some("/replays".to_string());
    c.user_player_code = " ME#1 ".to_string();
    c
}

fn app() -> StatsMeleeApp {
    StatsMeleeApp::new(configured(), PathStyle::Unix)
}

fn row(id: i32, duration_seconds: i32) -> ReplayRow {
    ReplayRow {
        game_id: id,
        slots: [None, None, None, None],
        stage_id: 2,
        duration_seconds,
        user_won: None,
        ingested_at: format!("2026-04-2{id} 10:00:00"),
        played_at: None,
    }
}

fn page_of(replay_path: Option<&str>) -> ViewerState {
    ViewerState {
        game_id: 1,
        replay_path: replay_path.map(|s| s.to_string()),
        stage_id: 2,
        duration_seconds: 0,
        ingested_at: String::new(),
        players: Vec::new(),
        analysis: Err(String::new()),
        user_perspective: None,
        key_moments: Vec::new(),
    }
}

fn ids(a: &StatsMeleeApp) -> Vec<i32> {
    a.rows.iter().map(|r| r.game_id).collect()
}

#[test]
fn the_first_page_depends_on_the_folder() {
    assert_eq!(StatsMeleeApp::new(AppConfig::default(), PathStyle::Unix).page, Page::Settings);
    assert_eq!(app().page, Page::ReplayLibrary);
}

#[test]
fn navigation_drops_what_asked_for_confirmation() {
    let mut a = app();
    a.arm_delete(4);
    a.arm_nuke();
    a.navigate_to(Page::ReplayLibrary);
    assert_eq!(a.delete_confirm_game_id, Some(4));
    a.navigate_to(Page::Career);
    assert_eq!(a.delete_confirm_game_id, None);
    assert!(!a.nuke_confirm_pending);
    assert_eq!(a.gear_target(), Page::Settings);
    a.navigate_to(Page::Settings);
    assert_eq!(a.gear_target(), Page::ReplayLibrary);
}

#[test]
fn the_game_on_view_goes_with_its_page() {
    let mut a = app();
    a.open_viewer(7);
    assert_eq!((a.page, a.viewing_game_id), (Page::ReplayViewer, Some(7)));
    a.reload_viewer(Some(Ok(page_of(None))));
    assert!(a.viewer_state.is_some());
    a.navigate_to(Page::Settings);
    assert_eq!(a.viewing_game_id, None);
    assert!(a.viewer_state.is_none());
    a.reload_viewer(Some(Ok(page_of(None))));
    assert!(a.viewer_state.is_none());
    a.open_viewer(8);
    a.reload_viewer(None);
    assert!(a.viewer_state.is_none());
    a.reload_viewer(Some(Err("no such game".to_string())));
    a.reload_viewer(None);
    assert!(matches!(&a.viewer_state, Some(Err(e)) if e == "no such game"));
    a.slippi_launched(Ok(()));
    a.back_to_library();
    assert_eq!(a.page, Page::ReplayLibrary);
    assert!(a.last_slippi_launch.is_none());
}

#[test]
fn columns_flip_on_the_second_click() {
    let mut a = app();
    a.reload_rows(Ok(vec![row(1, 50), row(2, 30), row(3, 40)]));
    assert_eq!(ids(&a), vec![3, 2, 1]);
    a.set_sort(SortKey::Duration);
    assert_eq!(a.sort_direction, SortDirection::Desc);
    assert_eq!(ids(&a), vec![1, 3, 2]);
    a.set_sort(SortKey::Duration);
    assert_eq!(ids(&a), vec![2, 3, 1]);
    a.set_sort(SortKey::Duration);
    assert_eq!(a.sort_direction, SortDirection::Desc);
    a.choose_sort(SortKey::Duration);
    assert_eq!(a.sort_direction, SortDirection::Desc);
    a.choose_sort(SortKey::GameId);
    assert_eq!(ids(&a), vec![3, 2, 1]);
    a.flip_sort();
    assert_eq!(ids(&a), vec![1, 2, 3]);
}

#[test]
fn the_database_is_opened_once_for_a_path() {
    let mut a = app();
    assert!(matches!(a.ensure_db(Ok(PathBuf::from("/d.db"))), DbStep::Open(p) if p == PathBuf::from("/d.db")));
    a.db_opened(PathBuf::from("/d.db"), Ok(()));
    assert!(matches!(a.ensure_db(Ok(PathBuf::from("/d.db"))), DbStep::Ready));
    assert!(matches!(a.ensure_db(Ok(PathBuf::from("/e.db"))), DbStep::Open(_)));
    // A path is the same place however it is written.
    assert!(matches!(a.ensure_db(Ok(PathBuf::from("//./d.db/"))), DbStep::Ready));
    assert!(matches!(a.db_step(Ok(PathBuf::from("/d.db")), false), DbStep::Open(_)));
    assert!(matches!(a.db_step(Ok(PathBuf::from("/e.db")), true), DbStep::Ready));
    a.db_opened(PathBuf::from("/e.db"), Err("locked".to_string()));
    assert!(!a.db_open);
    assert_eq!(a.db_error.as_deref(), Some("locked"));
    assert!(matches!(a.ensure_db(Err("no home".to_string())), DbStep::Failed));
    assert_eq!(a.db_error.as_deref(), Some("no home"));
}

#[test]
fn rows_are_loaded_when_there_are_none() {
    let mut a = app();
    assert!(!a.ensure_rows_loaded());
    a.db_opened(PathBuf::from("/d.db"), Ok(()));
    assert!(a.ensure_rows_loaded());
    a.reload_rows(Err("broken".to_string()));
    assert!(!a.ensure_rows_loaded());
    a.reload_rows(Ok(vec![row(1, 1)]));
    assert_eq!(a.rows_error, None);
    assert!(!a.ensure_rows_loaded());
}

#[test]
fn deleted_games_leave_the_list() {
    let mut a = app();
    a.reload_rows(Ok(vec![row(1, 1), row(2, 1)]));
    a.has_filtered = true;
    a.has_career = true;
    a.arm_delete(2);
    let hash = || Some("abc".to_string());
    assert_eq!(a.delete_replay(2, Some(Ok(1)), hash()), hash());
    assert_eq!(ids(&a), vec![1]);
    assert!(matches!(a.last_delete_summary, Some(Ok(2))));
    assert!(!a.has_filtered && !a.has_career);
    assert_eq!(a.delete_confirm_game_id, None);
    assert_eq!(a.delete_replay(9, Some(Ok(0)), hash()), None);
    assert!(matches!(&a.last_delete_summary,
        Some(Err(e)) if e == "Game #9 not found (already deleted?)"));
    assert_eq!(a.delete_replay(9, Some(Err("locked".to_string())), hash()), None);
    assert!(matches!(&a.last_delete_summary, Some(Err(e)) if e == "Delete failed: locked"));
    a.arm_delete(1);
    assert!(a.last_delete_summary.is_none());
    assert_eq!(a.delete_replay(1, None, hash()), None);
    assert!(matches!(&a.last_delete_summary, Some(Err(e)) if e == "db not open"));
    assert_eq!(a.delete_confirm_game_id, Some(1));
    a.cancel_delete();
    assert_eq!(a.delete_confirm_game_id, None);
    assert_eq!(a.delete_replay(1, Some(Ok(1)), None), None);
    assert!(a.rows.is_empty());
}

#[test]
fn everything_is_deleted_after_a_second_word() {
    let mut a = app();
    a.reload_rows(Ok(vec![row(1, 1)]));
    a.arm_nuke();
    assert!(!a.nuke_replays(Some(Err("locked".to_string()))));
    assert_eq!(a.last_nuke_summary.as_deref(), Some("Nuke failed: locked"));
    assert_eq!(ids(&a), vec![1]);
    a.arm_nuke();
    assert!(a.nuke_replays(Some(Ok(1))));
    assert_eq!(a.last_nuke_summary.as_deref(), Some("Deleted 1 replay(s)."));
    assert!(a.rows.is_empty() && !a.nuke_confirm_pending);
    a.arm_nuke();
    a.cancel_nuke();
    assert!(!a.nuke_confirm_pending);
    assert!(!a.nuke_replays(None));
    assert_eq!(a.last_nuke_summary.as_deref(), Some("db not open"));
}

#[test]
fn scans_run_one_at_a_time() {
    let mut a = app();
    assert!(a.auto_scan_due());
    assert!(!a.auto_scan_due());
    assert_eq!(
        a.ingest_replays(Ok(PathBuf::from("/d.db"))),
        Some(("/replays".to_string(), PathBuf::from("/d.db")))
    );
    assert_eq!(a.last_ingest_summary.as_deref(), Some("Scanning replays…"));
    assert_eq!(a.ingest_replays(Ok(PathBuf::from("/d.db"))), None);
    assert!(!a.poll_ingest_worker(Polled::Empty));
    assert!(a.ingest_loading);
    assert!(a.poll_ingest_worker(Polled::Sent(Ok(12))));
    assert_eq!(a.last_ingest_summary.as_deref(), Some("Ingested 12 new replay(s)."));
    assert!(!a.poll_ingest_worker(Polled::Sent(Ok(12))));
    a.pick_replay_dir("/other".to_string());
    assert!(a.auto_scan_due());
    a.ingest_replays(Ok(PathBuf::from("/d.db")));
    assert!(!a.poll_ingest_worker(Polled::Sent(Err("bad".to_string()))));
    assert_eq!(a.last_ingest_summary.as_deref(), Some("Ingest failed: bad"));
    a.ingest_replays(Ok(PathBuf::from("/d.db")));
    assert!(!a.poll_ingest_worker(Polled::Disconnected));
    assert_eq!(
        a.last_ingest_summary.as_deref(),
        Some("Ingest worker exited without producing a result.")
    );
    assert_eq!(a.ingest_replays(Err("no home".to_string())), None);
    assert_eq!(a.last_ingest_summary.as_deref(), Some("db path: no home"));
    let mut b = StatsMeleeApp::new(AppConfig::default(), PathStyle::Unix);
    assert_eq!(b.ingest_replays(Ok(PathBuf::from("/d.db"))), None);
    assert_eq!(b.last_ingest_summary.as_deref(), Some("No replay folder configured."));
    assert!(!b.auto_scan_due());
}

#[test]
fn summaries_are_made_for_a_code_and_a_filter() {
    let mut a = app();
    a.db_opened(PathBuf::from("/d.db"), Ok(()));
    a.reload_rows(Ok(vec![row(1, 1), row(2, 1)]));
    assert!(a.ensure_summary_loaded("ME#1"));
    let req = a.reload_summary(Ok(PathBuf::from("/d.db"))).expect("a request");
    assert_eq!((req.code.as_str(), req.recompute_career), ("ME#1", true));
    assert!(req.game_ids.is_none());
    assert!(!a.ensure_summary_loaded("ME#1"));
    a.poll_summary_worker(Polled::Sent(Ok(true)));
    assert!(a.has_filtered && a.has_career && !a.summary_loading);
    assert!(!a.ensure_summary_loaded("ME#1"));
    // A new filter needs a new summary, but not of all games.
    a.filter.stage = Some(2);
    assert!(a.ensure_summary_loaded("ME#1"));
    let req = a.reload_summary(Ok(PathBuf::from("/d.db"))).expect("a request");
    assert!(!req.recompute_career);
    assert_eq!(req.game_ids, Some(vec![2, 1]));
    a.poll_summary_worker(Polled::Sent(Ok(false)));
    assert!(a.has_career);
    // A new code needs both.
    a.config.user_player_code = "ME#2".to_string();
    assert!(a.reload_summary(Ok(PathBuf::from("/d.db"))).expect("a request").recompute_career);
    a.poll_summary_worker(Polled::Sent(Err("bad".to_string())));
    assert!(!a.has_filtered && !a.has_career);
    assert_eq!(a.summary_error.as_deref(), Some("bad"));
    assert!(!a.ensure_summary_loaded("ME#1"));
}

#[test]
fn summaries_fail_in_words() {
    let mut a = app();
    assert!(a.reload_summary(Err("no home".to_string())).is_none());
    assert_eq!(a.summary_error.as_deref(), Some("no home"));
    a.reload_summary(Ok(PathBuf::from("/d.db")));
    a.poll_summary_worker(Polled::Empty);
    assert!(a.summary_loading);
    a.poll_summary_worker(Polled::Disconnected);
    assert_eq!(
        a.summary_error.as_deref(),
        Some("summary worker exited without producing a result")
    );
    a.config.user_player_code = "  ".to_string();
    assert!(a.reload_summary(Ok(PathBuf::from("/d.db"))).is_none());
    assert!(a.summary_for.is_none() && a.summary_error.is_none());
    a.reload_rows(Ok(vec![row(1, 1)]));
    a.player_code_edited();
    assert!(a.rows.is_empty());
}

#[test]
fn settings_are_kept_as_typed() {
    let mut a = app();
    a.playback_edited(" /x ");
    assert_eq!(a.config.slippi_playback_command.as_deref(), Some(" /x "));
    a.playback_edited("  ");
    assert_eq!(a.config.slippi_playback_command, None);
    a.save_config(Err("read-only".to_string()));
    assert_eq!(a.last_config_error.as_deref(), Some("read-only"));
    a.save_config(Ok(()));
    assert_eq!(a.last_config_error, None);
}

#[test]
fn launches_need_a_replay() {
    let mut a = app();
    assert_eq!(a.launch_in_slippi(), None);
    assert!(matches!(&a.last_slippi_launch,
        Some(Err(e)) if e == "no replay loaded to launch"));
    a.open_viewer(1);
    a.reload_viewer(Some(Ok(page_of(None))));
    assert!(!a.can_launch());
    assert_eq!(a.launch_in_slippi(), None);
    assert!(matches!(&a.last_slippi_launch,
        Some(Err(e)) if *e == SlippiLaunchError::NoReplayPath.message()));
    a.reload_viewer(Some(Ok(page_of(Some("/r.slp")))));
    assert!(a.can_launch());
    assert_eq!(a.launch_hint(), "Launches the .slp in your local Slippi Dolphin install");
    assert_eq!(a.launch_in_slippi(), Some("/r.slp".to_string()));
    a.slippi_launched(Err(SlippiLaunchError::SpawnFailed("no".to_string())));
    assert!(matches!(&a.last_slippi_launch,
        Some(Err(e)) if e == "failed to launch Slippi: no"));
    a.slippi_launched(Ok(()));
    assert!(matches!(a.last_slippi_launch, Some(Ok(()))));
}

fn refusal(a: &mut StatsMeleeApp, hash: Option<&str>, iso_is_file: bool) -> String {
    let hash = hash.map(|s| s.to_string());
    assert!(a.start_render(hash, iso_is_file, "ffmpeg", "/v").is_none());
    match &a.last_render_summary {
        Some(Err(e)) => e.clone(),
        _ => panic!("expected a refusal"),
    }
}

#[test]
fn renders_say_what_is_missing() {
    let mut a = app();
    assert_eq!(refusal(&mut a, Some("h"), true), "no replay loaded to render");
    a.open_viewer(1);
    a.reload_viewer(Some(Ok(page_of(None))));
    assert!(refusal(&mut a, Some("h"), true).contains("has no path on disk"));
    a.reload_viewer(Some(Ok(page_of(Some("/r.slp")))));
    assert!(refusal(&mut a, None, true).contains("content_hash"));
    assert!(refusal(&mut a, Some("h"), true).contains("set the Melee ISO path"));
    assert_eq!(a.render_hint(false), "Set the Melee ISO path in Settings to enable rendering");
    a.config.melee_iso_path = Some("/m.iso".to_string());
    assert_eq!(refusal(&mut a, Some("h"), false), "Melee ISO not found at /m.iso");
    assert!(refusal(&mut a, Some("h"), true).contains("vanilla Dolphin"));
    assert!(a.can_render());
}

#[test]
fn renders_report_until_they_are_done() {
    let mut a = app();
    a.config.melee_iso_path = Some("/m.iso".to_string());
    a.config.slippi_playback_command = Some("/dolphin".to_string());
    a.open_viewer(1);
    a.reload_viewer(Some(Ok(page_of(Some("/r.slp")))));
    let req = a.start_render(Some("h".to_string()), true, "ffmpeg", "/v").expect("a render");
    assert_eq!(req.mp4_out, "/v/h.mp4");
    assert_eq!((req.slp_path.as_str(), req.slp_hash.as_str()), ("/r.slp", "h"));
    assert_eq!((req.dolphin_binary.as_str(), req.melee_iso.as_str()), ("/dolphin", "/m.iso"));
    assert_eq!(a.render_status.as_deref(), Some("Starting render"));
    assert!(!a.can_render());
    assert_eq!(a.render_hint(true), "Render already in progress");
    assert!(a.start_render(Some("h".to_string()), true, "ffmpeg", "/v").is_none());
    let step = a.poll_render_worker(Polled::Sent(RenderMsg::Progress("half".to_string())));
    assert!(matches!(step, RenderStep::Continue));
    assert_eq!(a.render_status.as_deref(), Some("half"));
    assert!(matches!(a.poll_render_worker(Polled::Empty), RenderStep::Stop));
    let done = RenderMsg::Done(Ok("/v/h.mp4".to_string()));
    match a.poll_render_worker(Polled::Sent(done)) {
        RenderStep::Finalize(h) => assert_eq!(h, "h"),
        _ => panic!("the video is in place"),
    }
    assert!(a.render_status.is_none() && a.render_in_flight_hash.is_none());
    assert!(matches!(&a.last_render_summary, Some(Ok(p)) if p == "/v/h.mp4"));
    assert!(matches!(a.poll_render_worker(Polled::Disconnected), RenderStep::Stop));
    assert!(matches!(&a.last_render_summary, Some(Ok(_))));
    assert_eq!(a.render_hint(true), "Re-render this replay (replaces the cached MP4)");
    a.start_render(Some("h".to_string()), true, "ffmpeg", "/v");
    a.poll_render_worker(Polled::Disconnected);
    assert!(matches!(&a.last_render_summary,
        Some(Err(e)) if e == "render worker exited without producing a video"));
    a.start_render(Some("h".to_string()), true, "ffmpeg", "/v");
    let failed = RenderMsg::Done(Err("boom".to_string()));
    assert!(matches!(a.poll_render_worker(Polled::Sent(failed)), RenderStep::Stop));
}
