//! What the program shows, and how it changes: pages, workers and settings.
//!
//! The state holds plain values. Files, the database and the worker threads
//! stand outside: each method takes what came back from them and says in its
//! result what is to be done next.
use std::path::PathBuf;
use vstd::prelude::*;
use crate::config::{optional_text, resolve_vanilla_dolphin_binary, as_strs, AppConfig};
use crate::library::{
    cleared_filter_is_inactive, ids_at, keys_tell_filters_apart, library_filtered_game_ids,
    shown_places, user_of, LibraryFilter, SummaryKey,
};
use crate::paths::{is_same_place, join, joined, same_place, PathStyle};
use crate::render_worker::{RenderMsg, RenderRequest};
use crate::replay_list::{
    is_sorted_from, sort_rows, sorting_only_moves_rows, ReplayRow, SortDirection, SortKey,
};
use crate::slippi::{program_of, SlippiLaunchError};
use crate::text::{
    decimal_text, integer_text, opt_text, push_decimal, push_integer, same, trim, trimmed,
};
use crate::viewer::ViewerState;

verus! {

broadcast use vstd::string::group_string_axioms;

/// A page of the program.
#[derive(Debug, Clone, Copy, PartialEq, Eq, Structural)]
pub enum Page {
    ReplayLibrary,
    Analytics,
    Career,
    Settings,
    ReplayViewer,
}

/// The state of the program.
pub struct StatsMeleeApp {
    /// How the system writes paths.
    pub style: PathStyle,
    pub page: Page,
    pub config: AppConfig,
    pub last_config_error: Option<String>,
    /// Whether the database is open, and the path that it was opened at.
    pub db_open: bool,
    pub db_opened_path: Option<PathBuf>,
    pub db_error: Option<String>,
    pub rows: Vec<ReplayRow>,
    pub rows_error: Option<String>,
    pub last_ingest_summary: Option<String>,
    /// Whether a scan is running.
    pub ingest_loading: bool,
    /// Whether the scan of this session, or of a new folder, was started.
    pub auto_scan_attempted: bool,
    /// Whether there is a summary of the games that are shown.
    pub has_filtered: bool,
    /// Whether there is a summary of all games, with its breakdowns.
    pub has_career: bool,
    pub summary_error: Option<String>,
    /// What the summaries were made for.
    pub summary_for: Option<SummaryKey>,
    /// Whether summaries are being made.
    pub summary_loading: bool,
    pub nuke_confirm_pending: bool,
    pub last_nuke_summary: Option<String>,
    pub sort_key: SortKey,
    pub sort_direction: SortDirection,
    pub filter: LibraryFilter,
    pub show_filter_panel: bool,
    /// The game whose row asks whether to delete it.
    pub delete_confirm_game_id: Option<i32>,
    pub last_delete_summary: Option<Result<i32, String>>,
    /// The game on view: there is one exactly on the viewer's page.
    pub viewing_game_id: Option<i32>,
    pub viewer_state: Option<Result<ViewerState, String>>,
    pub last_slippi_launch: Option<Result<(), String>>,
    /// The hash of the replay that is being rendered.
    pub render_in_flight_hash: Option<String>,
    /// What the renderer last said, while it runs.
    pub render_status: Option<String>,
    pub last_render_summary: Option<Result<String, String>>,
}

/// What a worker's channel gave: what it sent, nothing yet, or nothing ever.
#[derive(Debug)]
pub enum Polled<T> {
    Sent(T),
    Empty,
    Disconnected,
}

/// What the database is to be asked.
#[derive(Debug)]
pub enum DbStep {
    /// It is open where it should be.
    Ready,
    /// It is to be opened at a path.
    Open(PathBuf),
    /// It cannot be opened.
    Failed,
}

/// The summaries that a worker is to make.
#[derive(Debug)]
pub struct SummaryRequest {
    pub code: String,
    pub db_path: PathBuf,
    /// The games to count, where they are not all.
    pub game_ids: Option<Vec<i32>>,
    /// Whether the summary of all games is to be made too.
    pub recompute_career: bool,
}

/// What a message of the renderer calls for.
#[derive(Debug)]
pub enum RenderStep {
    /// The next message.
    Continue,
    /// Nothing more.
    Stop,
    /// The video of that hash is in place.
    Finalize(String),
}

fn words_with(before: &str, number: u128, after: &str) -> (r: String)
    ensures
        r@ == before@ + decimal_text(number as nat) + after@,
{
    let mut out = before.to_owned();
    push_decimal(&mut out, number);
    out.append(after);
    out
}

fn words_of(before: &str, rest: &str) -> (r: String)
    ensures
        r@ == before@ + rest@,
{
    let mut out = before.to_owned();
    out.append(rest);
    out
}

fn not_found_words(game_id: i32) -> (r: String)
    ensures
        r@ == "Game #"@ + integer_text(game_id as int) + " not found (already deleted?)"@,
{
    let mut out = "Game #".to_owned();
    push_integer(&mut out, game_id as i64);
    out.append(" not found (already deleted?)");
    out
}

/// Whether an optional status line reads as given.
pub open spec fn says(line: Option<String>, words: Seq<char>) -> bool {
    line matches Some(s) && s@ == words
}

/// Whether a result is an error with the given words.
pub open spec fn fails<T>(result: Option<Result<T, String>>, words: Seq<char>) -> bool {
    result matches Some(Err(s)) && s@ == words
}

impl StatsMeleeApp {
    /// A game is on view exactly on the viewer's page, and a render speaks
    /// exactly while it runs.
    pub open spec fn wf(&self) -> bool {
        &&& self.viewing_game_id is Some <==> self.page == Page::ReplayViewer
        &&& self.viewer_state is Some ==> self.viewing_game_id is Some
        &&& self.render_status is Some <==> self.render_in_flight_hash is Some
        &&& self.summary_loading ==> self.summary_for is Some
    }

    /// The state at the start.
    pub open spec fn is_fresh(self, config: AppConfig, style: PathStyle) -> bool {
        &&& self.style == style
        &&& self.config == config
        &&& self.page == (if config.replay_dir is None || config.replay_dir->0@.len() == 0 {
            Page::Settings
        } else {
            Page::ReplayLibrary
        })
        &&& self.last_config_error is None
        &&& !self.db_open
        &&& self.db_opened_path is None
        &&& self.db_error is None
        &&& self.rows@ == Seq::<ReplayRow>::empty()
        &&& self.rows_error is None
        &&& self.last_ingest_summary is None
        &&& !self.ingest_loading
        &&& !self.auto_scan_attempted
        &&& !self.has_filtered
        &&& !self.has_career
        &&& self.summary_error is None
        &&& self.summary_for is None
        &&& !self.summary_loading
        &&& !self.nuke_confirm_pending
        &&& self.last_nuke_summary is None
        &&& self.sort_key == SortKey::IngestedAt
        &&& self.sort_direction == SortDirection::Desc
        &&& self.filter.is_clear()
        &&& self.show_filter_panel
        &&& self.delete_confirm_game_id is None
        &&& self.last_delete_summary is None
        &&& self.viewing_game_id is None
        &&& self.viewer_state is None
        &&& self.last_slippi_launch is None
        &&& self.render_in_flight_hash is None
        &&& self.render_status is None
        &&& self.last_render_summary is None
    }

    /// The state at the start: the library, or the settings as long as no
    /// folder of replays is set.
    pub fn new(config: AppConfig, style: PathStyle) -> (r: StatsMeleeApp)
        ensures
            r.wf(),
            r.is_fresh(config, style),
    {
        let page = if config.needs_onboarding() {
            Page::Settings
        } else {
            Page::ReplayLibrary
        };
        StatsMeleeApp {
            style,
            page,
            config,
            last_config_error: None,
            db_open: false,
            db_opened_path: None,
            db_error: None,
            rows: Vec::new(),
            rows_error: None,
            last_ingest_summary: None,
            ingest_loading: false,
            auto_scan_attempted: false,
            has_filtered: false,
            has_career: false,
            summary_error: None,
            summary_for: None,
            summary_loading: false,
            nuke_confirm_pending: false,
            last_nuke_summary: None,
            sort_key: SortKey::IngestedAt,
            sort_direction: SortDirection::Desc,
            filter: LibraryFilter::cleared(),
            show_filter_panel: true,
            delete_confirm_game_id: None,
            last_delete_summary: None,
            viewing_game_id: None,
            viewer_state: None,
            last_slippi_launch: None,
            render_in_flight_hash: None,
            render_status: None,
            last_render_summary: None,
        }
    }

    // ------------------------------------------------------------ navigation

    /// `self` on another page that shows no game. What asked for confirmation
    /// no longer does, the word on the last deletion is gone, and so is the
    /// game that was on view.
    pub open spec fn on_page(self, page: Page) -> StatsMeleeApp {
        if self.page == page {
            self
        } else {
            StatsMeleeApp {
                page,
                nuke_confirm_pending: false,
                delete_confirm_game_id: None,
                last_delete_summary: None,
                viewing_game_id: None,
                viewer_state: None,
                ..self
            }
        }
    }

    /// Goes to a page other than the viewer's.
    pub fn navigate_to(&mut self, page: Page)
        requires
            old(self).wf(),
            page != Page::ReplayViewer,
        ensures
            final(self).wf(),
            *final(self) == old(self).on_page(page),
    {
        if self.page == page {
            return;
        }
        self.nuke_confirm_pending = false;
        self.delete_confirm_game_id = None;
        self.last_delete_summary = None;
        self.viewing_game_id = None;
        self.viewer_state = None;
        self.page = page;
    }

    /// Where the gear leads from a page.
    pub open spec fn gear_leads(page: Page) -> Page {
        if page == Page::Settings {
            Page::ReplayLibrary
        } else {
            Page::Settings
        }
    }

    /// Where the gear leads: to the settings, and from there to the library.
    pub fn gear_target(&self) -> (r: Page)
        ensures
            r == Self::gear_leads(self.page),
    {
        if self.page == Page::Settings {
            Page::ReplayLibrary
        } else {
            Page::Settings
        }
    }

    /// `self` with a game on view that is yet to be loaded.
    pub open spec fn on_game(self, game_id: i32) -> StatsMeleeApp {
        StatsMeleeApp {
            page: Page::ReplayViewer,
            nuke_confirm_pending: false,
            delete_confirm_game_id: None,
            last_delete_summary: None,
            viewing_game_id: Some(game_id),
            viewer_state: None,
            last_slippi_launch: None,
            last_render_summary: None,
            ..self
        }
    }

    /// Goes to the page of a game. The game is then to be loaded.
    pub fn open_viewer(&mut self, game_id: i32)
        requires
            old(self).wf(),
        ensures
            final(self).wf(),
            *final(self) == old(self).on_game(game_id),
    {
        self.nuke_confirm_pending = false;
        self.delete_confirm_game_id = None;
        self.last_delete_summary = None;
        self.viewing_game_id = Some(game_id);
        self.viewer_state = None;
        self.last_slippi_launch = None;
        self.last_render_summary = None;
        self.page = Page::ReplayViewer;
    }

    /// Leaves the page of a game for the library.
    pub fn back_to_library(&mut self)
        requires
            old(self).wf(),
            old(self).page == Page::ReplayViewer,
        ensures
            final(self).wf(),
            *final(self) == (StatsMeleeApp {
                last_slippi_launch: None,
                last_render_summary: None,
                ..old(self).on_page(Page::ReplayLibrary)
            }),
    {
        self.navigate_to(Page::ReplayLibrary);
        self.last_slippi_launch = None;
        self.last_render_summary = None;
    }

    // ---------------------------------------------------------------- sorting

    pub open spec fn flipped(dir: SortDirection) -> SortDirection {
        match dir {
            SortDirection::Asc => SortDirection::Desc,
            SortDirection::Desc => SortDirection::Asc,
        }
    }

    /// The direction after a click on a column: the other one on the same
    /// column, that of a first click on another.
    pub open spec fn direction_after(self, key: SortKey) -> SortDirection {
        if self.sort_key == key {
            Self::flipped(self.sort_direction)
        } else {
            key.first_direction()
        }
    }

    /// Whether `new` is `self` with its rows sorted anew.
    pub open spec fn is_sorted_as(self, new: StatsMeleeApp, key: SortKey, dir: SortDirection) -> bool {
        &&& new == (StatsMeleeApp { rows: new.rows, sort_key: key, sort_direction: dir, ..self })
        &&& is_sorted_from(new.rows@, self.rows@, key, dir)
    }

    fn sort_as(&mut self, key: SortKey, dir: SortDirection)
        requires
            old(self).wf(),
        ensures
            final(self).wf(),
            old(self).is_sorted_as(*final(self), key, dir),
    {
        self.sort_key = key;
        self.sort_direction = dir;
        sort_rows(&mut self.rows, key, dir);
    }

    /// A click on a column.
    pub fn set_sort(&mut self, key: SortKey)
        requires
            old(self).wf(),
        ensures
            final(self).wf(),
            old(self).is_sorted_as(*final(self), key, old(self).direction_after(key)),
    {
        let dir: SortDirection = if self.sort_key == key {
            match self.sort_direction {
                SortDirection::Asc => SortDirection::Desc,
                SortDirection::Desc => SortDirection::Asc,
            }
        } else {
            key.default_direction()
        };
        self.sort_as(key, dir);
    }

    /// A choice in the list of columns; that of the current one changes
    /// nothing.
    pub fn choose_sort(&mut self, key: SortKey)
        requires
            old(self).wf(),
        ensures
            final(self).wf(),
            old(self).sort_key == key ==> *final(self) == *old(self),
            old(self).sort_key != key ==> old(self).is_sorted_as(
                *final(self),
                key,
                key.first_direction(),
            ),
    {
        if self.sort_key != key {
            self.set_sort(key);
        }
    }

    /// Turns the direction round.
    pub fn flip_sort(&mut self)
        requires
            old(self).wf(),
        ensures
            final(self).wf(),
            old(self).is_sorted_as(
                *final(self),
                old(self).sort_key,
                Self::flipped(old(self).sort_direction),
            ),
    {
        let key: SortKey = self.sort_key;
        self.set_sort(key);
    }

    // ----------------------------------------------------------- the database

    /// What is said where the database is not open.
    pub open spec fn db_words(self) -> Seq<char> {
        match self.db_error {
            Some(e) => e@,
            None => "db not open"@,
        }
    }

    fn db_problem(&self) -> (r: String)
        ensures
            r@ == self.db_words(),
    {
        match &self.db_error {
            Some(e) => e.clone(),
            None => "db not open".to_owned(),
        }
    }

    /// Whether the database is open at a path.
    pub open spec fn is_open_at(self, path: PathBuf) -> bool {
        self.db_open && (self.db_opened_path matches Some(q) && same_place(q, path))
    }

    /// What is to be done so that the database is open at `target`, the path of
    /// the settings, or why they give none.
    pub fn ensure_db(&mut self, target: Result<PathBuf, String>) -> (step: DbStep)
        requires
            old(self).wf(),
        ensures
            final(self).wf(),
            match target {
                Ok(p) => *final(self) == *old(self) && step == (if old(self).is_open_at(p) {
                    DbStep::Ready
                } else {
                    DbStep::Open(p)
                }),
                Err(e) => step is Failed && *final(self) == (StatsMeleeApp {
                    db_open: false,
                    db_error: Some(e),
                    ..*old(self)
                }),
            },
    {
        let there: bool = match (&self.db_opened_path, &target) {
            (Some(q), Ok(p)) => is_same_place(q, p),
            _ => false,
        };
        self.db_step(target, there)
    }

    /// What is to be done so that the database is open at `target`, where
    /// `there` says whether that is where it was last opened.
    pub fn db_step(&mut self, target: Result<PathBuf, String>, there: bool) -> (step: DbStep)
        requires
            old(self).wf(),
        ensures
            final(self).wf(),
            match target {
                Ok(p) => *final(self) == *old(self) && step == (if there && old(self).db_open {
                    DbStep::Ready
                } else {
                    DbStep::Open(p)
                }),
                Err(e) => step is Failed && *final(self) == (StatsMeleeApp {
                    db_open: false,
                    db_error: Some(e),
                    ..*old(self)
                }),
            },
    {
        match target {
            Err(e) => {
                self.db_error = Some(e);
                self.db_open = false;
                DbStep::Failed
            },
            Ok(p) => if there && self.db_open {
                DbStep::Ready
            } else {
                DbStep::Open(p)
            },
        }
    }

    /// The database was opened at a path, or was not.
    pub fn db_opened(&mut self, path: PathBuf, result: Result<(), String>)
        requires
            old(self).wf(),
        ensures
            final(self).wf(),
            *final(self) == (match result {
                Ok(_) => StatsMeleeApp {
                    db_open: true,
                    db_opened_path: Some(path),
                    db_error: None,
                    ..*old(self)
                },
                Err(e) => StatsMeleeApp { db_open: false, db_error: Some(e), ..*old(self) },
            }),
    {
        match result {
            Ok(_) => {
                self.db_open = true;
                self.db_opened_path = Some(path);
                self.db_error = None;
            },
            Err(e) => {
                self.db_open = false;
                self.db_error = Some(e);
            },
        }
    }

    /// Whether `after` is `self` after its rows were loaded, or were not.
    pub open spec fn is_reloaded(
        self,
        after: StatsMeleeApp,
        result: Result<Vec<ReplayRow>, String>,
    ) -> bool {
        match result {
            Ok(rows) => {
                &&& after == (StatsMeleeApp {
                    rows: after.rows,
                    rows_error: None,
                    ..self
                })
                &&& is_sorted_from(
                    after.rows@,
                    rows@,
                    self.sort_key,
                    self.sort_direction,
                )
            },
            Err(e) => after == (StatsMeleeApp { rows_error: Some(e), ..self }),
        }
    }

    /// The rows were loaded, or were not. Rows come in the order that is set.
    pub fn reload_rows(&mut self, result: Result<Vec<ReplayRow>, String>)
        requires
            old(self).wf(),
        ensures
            final(self).wf(),
            old(self).is_reloaded(*final(self), result),
    {
        match result {
            Ok(rows) => {
                let mut sorted = rows;
                sort_rows(&mut sorted, self.sort_key, self.sort_direction);
                self.rows = sorted;
                self.rows_error = None;
            },
            Err(e) => {
                self.rows_error = Some(e);
            },
        }
    }

    /// Whether the rows are to be loaded: there are none, nothing went wrong,
    /// and the database is open.
    pub fn ensure_rows_loaded(&self) -> (r: bool)
        ensures
            r == (self.rows@.len() == 0 && self.rows_error is None && self.db_open),
    {
        self.rows.len() == 0 && self.rows_error.is_none() && self.db_open
    }

    // -------------------------------------------------------------- deletions

    /// Asks whether to delete a game.
    pub fn arm_delete(&mut self, game_id: i32)
        requires
            old(self).wf(),
        ensures
            final(self).wf(),
            *final(self) == (StatsMeleeApp {
                delete_confirm_game_id: Some(game_id),
                last_delete_summary: None,
                ..*old(self)
            }),
    {
        self.delete_confirm_game_id = Some(game_id);
        self.last_delete_summary = None;
    }

    /// No longer asks whether to delete a game.
    pub fn cancel_delete(&mut self)
        requires
            old(self).wf(),
        ensures
            final(self).wf(),
            *final(self) == (StatsMeleeApp { delete_confirm_game_id: None, ..*old(self) }),
    {
        self.delete_confirm_game_id = None;
    }

    fn delete_failed(&mut self, words: String)
        requires
            old(self).wf(),
        ensures
            final(self).wf(),
            *final(self) == (StatsMeleeApp {
                last_delete_summary: Some(Err(words)),
                delete_confirm_game_id: None,
                ..*old(self)
            }),
    {
        self.delete_confirm_game_id = None;
        self.last_delete_summary = Some(Err(words));
    }

    /// Drops the rows of a deleted game, and the summaries that counted it.
    fn forget_game(&mut self, game_id: i32)
        requires
            old(self).wf(),
        ensures
            final(self).wf(),
            final(self).rows@ == old(self).rows@.filter(|r: ReplayRow| r.game_id != game_id),
            *final(self) == (StatsMeleeApp {
                last_delete_summary: Some(Ok(game_id)),
                delete_confirm_game_id: None,
                rows: final(self).rows,
                has_filtered: false,
                has_career: false,
                summary_for: None,
                summary_loading: false,
                ..*old(self)
            }),
    {
        self.last_delete_summary = Some(Ok(game_id));
        self.delete_confirm_game_id = None;
        let mut old_rows: Vec<ReplayRow> = Vec::new();
        std::mem::swap(&mut self.rows, &mut old_rows);
        self.rows = without_game(old_rows, game_id);
        self.has_filtered = false;
        self.has_career = false;
        self.summary_for = None;
        self.summary_loading = false;
    }

    /// Whether `after` is `self` after a game was deleted, or was not, and `stale`
    /// the hash whose cached analysis is to be dropped.
    pub open spec fn is_without(
        self,
        after: StatsMeleeApp,
        game_id: i32,
        outcome: Option<Result<usize, String>>,
        content_hash: Option<String>,
        stale: Option<String>,
    ) -> bool {
        &&& stale == (match outcome {
            Some(Ok(n)) => if n > 0 {
                content_hash
            } else {
                None
            },
            _ => None,
        })
        &&& match outcome {
            None => fails(after.last_delete_summary, self.db_words())
                && after == (StatsMeleeApp {
                last_delete_summary: after.last_delete_summary,
                ..self
            }),
            Some(Ok(n)) => if n == 0 {
                fails(
                    after.last_delete_summary,
                    "Game #"@ + integer_text(game_id as int) + " not found (already deleted?)"@,
                ) && after == (StatsMeleeApp {
                    last_delete_summary: after.last_delete_summary,
                    delete_confirm_game_id: None,
                    ..self
                })
            } else {
                after.rows@ == self.rows@.filter(
                    |r: ReplayRow| r.game_id != game_id,
                ) && after == (StatsMeleeApp {
                    last_delete_summary: Some(Ok(game_id)),
                    delete_confirm_game_id: None,
                    rows: after.rows,
                    has_filtered: false,
                    has_career: false,
                    summary_for: None,
                    summary_loading: false,
                    ..self
                })
            },
            Some(Err(e)) => fails(after.last_delete_summary, "Delete failed: "@ + e@)
                && after == (StatsMeleeApp {
                last_delete_summary: after.last_delete_summary,
                delete_confirm_game_id: None,
                ..self
            }),
        }
    }

    /// A game was deleted, or was not: `outcome` is how many games the database
    /// dropped, or why it dropped none; without one the database is not open.
    /// `content_hash` is the hash of the game's replay, where it has one. Gives
    /// back the hash whose cached analysis is to be dropped.
    #[verifier::spinoff_prover]
    pub fn delete_replay(
        &mut self,
        game_id: i32,
        outcome: Option<Result<usize, String>>,
        content_hash: Option<String>,
    ) -> (stale: Option<String>)
        requires
            old(self).wf(),
        ensures
            final(self).wf(),
            old(self).is_without(*final(self), game_id, outcome, content_hash, stale),
    {
        match outcome {
            None => {
                self.last_delete_summary = Some(Err(self.db_problem()));
                None
            },
            Some(Ok(n)) => if n == 0 {
                self.delete_failed(not_found_words(game_id));
                None
            } else {
                self.forget_game(game_id);
                content_hash
            },
            Some(Err(e)) => {
                self.delete_failed(words_of("Delete failed: ", e.as_str()));
                None
            },
        }
    }

    /// Asks whether to delete every game.
    pub fn arm_nuke(&mut self)
        requires
            old(self).wf(),
        ensures
            final(self).wf(),
            *final(self) == (StatsMeleeApp {
                nuke_confirm_pending: true,
                last_nuke_summary: None,
                ..*old(self)
            }),
    {
        self.nuke_confirm_pending = true;
        self.last_nuke_summary = None;
    }

    /// No longer asks whether to delete every game.
    pub fn cancel_nuke(&mut self)
        requires
            old(self).wf(),
        ensures
            final(self).wf(),
            *final(self) == (StatsMeleeApp { nuke_confirm_pending: false, ..*old(self) }),
    {
        self.nuke_confirm_pending = false;
    }

    /// Drops the rows of all games, and the summaries that counted them.
    fn forget_games(&mut self, words: String)
        requires
            old(self).wf(),
        ensures
            final(self).wf(),
            final(self).rows@ == Seq::<ReplayRow>::empty(),
            *final(self) == (StatsMeleeApp {
                last_nuke_summary: Some(words),
                nuke_confirm_pending: false,
                rows: final(self).rows,
                rows_error: None,
                has_filtered: false,
                has_career: false,
                summary_error: None,
                summary_for: None,
                summary_loading: false,
                last_ingest_summary: None,
                ..*old(self)
            }),
    {
        self.forget_rows();
        self.rows_error = None;
        self.last_ingest_summary = None;
        self.nuke_confirm_pending = false;
        self.last_nuke_summary = Some(words);
    }

    /// Whether `after` is `self` after every game was deleted, or none was.
    pub open spec fn is_emptied(
        self,
        after: StatsMeleeApp,
        outcome: Option<Result<usize, String>>,
        clear: bool,
    ) -> bool {
        &&& clear == (outcome matches Some(Ok(_)))
        &&& match outcome {
            None => says(after.last_nuke_summary, self.db_words()) && after == (
            StatsMeleeApp { last_nuke_summary: after.last_nuke_summary, ..self }),
            Some(Ok(n)) => says(
                after.last_nuke_summary,
                "Deleted "@ + decimal_text(n as nat) + " replay(s)."@,
            ) && after.rows@ == Seq::<ReplayRow>::empty() && after == (
            StatsMeleeApp {
                last_nuke_summary: after.last_nuke_summary,
                nuke_confirm_pending: false,
                rows: after.rows,
                rows_error: None,
                has_filtered: false,
                has_career: false,
                summary_error: None,
                summary_for: None,
                summary_loading: false,
                last_ingest_summary: None,
                ..self
            }),
            Some(Err(e)) => says(after.last_nuke_summary, "Nuke failed: "@ + e@)
                && after == (StatsMeleeApp {
                last_nuke_summary: after.last_nuke_summary,
                nuke_confirm_pending: false,
                ..self
            }),
        }
    }

    /// Every game was deleted, or none was: `outcome` is how many games the
    /// database dropped, or why it dropped none; without one the database is
    /// not open. Says whether the cache of analyses is to be cleared.
    #[verifier::spinoff_prover]
    pub fn nuke_replays(&mut self, outcome: Option<Result<usize, String>>) -> (clear: bool)
        requires
            old(self).wf(),
        ensures
            final(self).wf(),
            old(self).is_emptied(*final(self), outcome, clear),
    {
        match outcome {
            None => {
                self.last_nuke_summary = Some(self.db_problem());
                false
            },
            Some(Ok(n)) => {
                self.forget_games(words_with("Deleted ", n as u128, " replay(s)."));
                true
            },
            Some(Err(e)) => {
                self.last_nuke_summary = Some(words_of("Nuke failed: ", e.as_str()));
                self.nuke_confirm_pending = false;
                false
            },
        }
    }

    // --------------------------------------------------------------- settings

    /// The settings were saved, or were not.
    pub fn save_config(&mut self, result: Result<(), String>)
        requires
            old(self).wf(),
        ensures
            final(self).wf(),
            *final(self) == (StatsMeleeApp {
                last_config_error: match result {
                    Ok(_) => None,
                    Err(e) => Some(e),
                },
                ..*old(self)
            }),
    {
        match result {
            Ok(_) => {
                self.last_config_error = None;
            },
            Err(e) => {
                self.last_config_error = Some(e);
            },
        }
    }

    /// A folder of replays was picked. It is to be scanned.
    pub fn pick_replay_dir(&mut self, path: String)
        requires
            old(self).wf(),
        ensures
            final(self).wf(),
            *final(self) == (StatsMeleeApp {
                config: AppConfig { replay_dir: Some(path), ..old(self).config },
                auto_scan_attempted: false,
                ..*old(self)
            }),
    {
        self.config.replay_dir = Some(path);
        self.auto_scan_attempted = false;
    }

    /// `self` without the summaries, and without a worker that makes them.
    pub open spec fn without_summaries(self) -> StatsMeleeApp {
        StatsMeleeApp {
            has_filtered: false,
            has_career: false,
            summary_error: None,
            summary_for: None,
            summary_loading: false,
            ..self
        }
    }

    fn forget_rows(&mut self)
        requires
            old(self).wf(),
        ensures
            final(self).wf(),
            final(self).rows@ == Seq::<ReplayRow>::empty(),
            *final(self) == (StatsMeleeApp {
                rows: final(self).rows,
                ..old(self).without_summaries()
            }),
    {
        self.rows = Vec::new();
        self.has_filtered = false;
        self.has_career = false;
        self.summary_error = None;
        self.summary_for = None;
        self.summary_loading = false;
    }

    /// The user's code was changed: what was made for another is dropped.
    pub fn player_code_edited(&mut self)
        requires
            old(self).wf(),
        ensures
            final(self).wf(),
            final(self).rows@ == Seq::<ReplayRow>::empty(),
            *final(self) == (StatsMeleeApp {
                rows: final(self).rows,
                ..old(self).without_summaries()
            }),
    {
        self.forget_rows();
    }

    /// The text of the playback binary was changed; blank text stands for the
    /// default.
    pub fn playback_edited(&mut self, text: &str)
        requires
            old(self).wf(),
        ensures
            final(self).wf(),
            opt_text(final(self).config.slippi_playback_command) == (if trimmed(text@).len() == 0 {
                None
            } else {
                Some(text@)
            }),
            *final(self) == (StatsMeleeApp {
                config: AppConfig {
                    slippi_playback_command: final(self).config.slippi_playback_command,
                    ..old(self).config
                },
                ..*old(self)
            }),
    {
        self.config.slippi_playback_command = optional_text(text);
    }

    // ------------------------------------------------------------------ scans

    /// Whether a scan is due: none was started for this folder, there is a
    /// folder, and none is running.
    pub open spec fn is_scan_due(self) -> bool {
        !self.auto_scan_attempted && self.config.replay_dir is Some && !self.ingest_loading
    }

    /// Whether a scan is due. It then counts as started.
    pub fn auto_scan_due(&mut self) -> (due: bool)
        requires
            old(self).wf(),
        ensures
            final(self).wf(),
            due == old(self).is_scan_due(),
            *final(self) == (StatsMeleeApp {
                auto_scan_attempted: old(self).auto_scan_attempted || due,
                ..*old(self)
            }),
    {
        if !self.auto_scan_attempted && self.config.replay_dir.is_some() && !self.ingest_loading {
            self.auto_scan_attempted = true;
            true
        } else {
            false
        }
    }

    /// Whether `after` is `self` after a scan was asked for, and `r` what is to be
    /// scanned.
    pub open spec fn is_scanning(
        self,
        after: StatsMeleeApp,
        db_path: Result<PathBuf, String>,
        r: Option<(String, PathBuf)>,
    ) -> bool {
        if self.ingest_loading {
            r is None && after == self
        } else {
            match (self.config.replay_dir, db_path) {
                (None, _) => r is None && says(
                    after.last_ingest_summary,
                    "No replay folder configured."@,
                ) && after == (StatsMeleeApp {
                    last_ingest_summary: after.last_ingest_summary,
                    ..self
                }),
                (Some(_), Err(e)) => r is None && says(
                    after.last_ingest_summary,
                    "db path: "@ + e@,
                ) && after == (StatsMeleeApp {
                    last_ingest_summary: after.last_ingest_summary,
                    ..self
                }),
                (Some(dir), Ok(p)) => (r matches Some((d, q)) && d@ == dir@ && q == p) && says(
                    after.last_ingest_summary,
                    "Scanning replays…"@,
                ) && after == (StatsMeleeApp {
                    last_ingest_summary: after.last_ingest_summary,
                    ingest_loading: true,
                    ..self
                }),
            }
        }
    }

    /// Starts a scan, unless one is running: gives the folder to scan and the
    /// database to fill.
    pub fn ingest_replays(&mut self, db_path: Result<PathBuf, String>) -> (r: Option<
        (String, PathBuf),
    >)
        requires
            old(self).wf(),
        ensures
            final(self).wf(),
            old(self).is_scanning(*final(self), db_path, r),
    {
        if self.ingest_loading {
            return None;
        }
        let dir = match &self.config.replay_dir {
            Some(d) => d.clone(),
            None => {
                self.last_ingest_summary = Some("No replay folder configured.".to_owned());
                return None;
            },
        };
        match db_path {
            Err(e) => {
                self.last_ingest_summary = Some(words_of("db path: ", e.as_str()));
                None
            },
            Ok(p) => {
                self.ingest_loading = true;
                self.last_ingest_summary = Some("Scanning replays…".to_owned());
                Some((dir, p))
            },
        }
    }

    /// Whether `after` is `self` after what the scan's channel gave.
    pub open spec fn has_scan_news(
        self,
        after: StatsMeleeApp,
        polled: Polled<Result<usize, String>>,
        reload: bool,
    ) -> bool {
        &&& reload == (self.ingest_loading && polled matches Polled::Sent(Ok(_)))
        &&& if !self.ingest_loading || polled is Empty {
            after == self
        } else {
            after == (StatsMeleeApp {
                last_ingest_summary: after.last_ingest_summary,
                ingest_loading: false,
                ..self
            }) && says(
                after.last_ingest_summary,
                match polled {
                    Polled::Sent(Ok(n)) => "Ingested "@ + decimal_text(n as nat)
                        + " new replay(s)."@,
                    Polled::Sent(Err(e)) => "Ingest failed: "@ + e@,
                    _ => "Ingest worker exited without producing a result."@,
                },
            )
        }
    }

    /// What the scan's channel gave, where one is running: how many games are
    /// new, or why there are none. Says whether the rows are to be loaded anew.
    pub fn poll_ingest_worker(&mut self, polled: Polled<Result<usize, String>>) -> (reload: bool)
        requires
            old(self).wf(),
        ensures
            final(self).wf(),
            old(self).has_scan_news(*final(self), polled, reload),
    {
        if !self.ingest_loading {
            return false;
        }
        match polled {
            Polled::Sent(Ok(n)) => {
                self.last_ingest_summary = Some(words_with("Ingested ", n as u128, " new replay(s)."));
                self.ingest_loading = false;
                true
            },
            Polled::Sent(Err(e)) => {
                self.last_ingest_summary = Some(words_of("Ingest failed: ", e.as_str()));
                self.ingest_loading = false;
                false
            },
            Polled::Empty => false,
            Polled::Disconnected => {
                self.last_ingest_summary = Some(
                    "Ingest worker exited without producing a result.".to_owned(),
                );
                self.ingest_loading = false;
                false
            },
        }
    }

    // -------------------------------------------------------------- summaries

    /// Whether the summaries are to be made anew for a code: they were made for
    /// another code or filter, nothing went wrong, the database is open, and
    /// none are being made.
    pub open spec fn wants_summary(self, code: Seq<char>) -> bool {
        self.summary_error is None && self.db_open && !self.summary_loading && !(
        self.summary_for matches Some(k) && k@ == self.filter.key_for(code))
    }

    /// Whether the summaries are to be made anew for a code.
    pub fn ensure_summary_loaded(&self, code: &str) -> (r: bool)
        ensures
            r == self.wants_summary(code@),
    {
        let current: bool = match &self.summary_for {
            Some(k) => k.equals(&self.filter.summary_key(code)),
            None => false,
        };
        self.summary_error.is_none() && self.db_open && !self.summary_loading && !current
    }

    /// Whether the summary of all games is out of date for a code.
    pub open spec fn career_is_stale(self, code: Seq<char>) -> bool {
        !self.has_career || !(self.summary_for matches Some(k) && k.code@ == code)
    }

    /// The games that a summary counts, where they are not all.
    pub open spec fn counted_games(self) -> Option<Seq<i32>> {
        if self.filter.is_active() {
            Some(
                ids_at(
                    self.rows@,
                    shown_places(
                        self.filter,
                        self.rows@,
                        user_of(self.config.user_player_code@),
                        self.rows@.len() as int,
                    ),
                ),
            )
        } else {
            None
        }
    }

    /// Whether `after` is `self` after summaries were asked for, and `r` what is to
    /// be made: the summary of all games too where it is out of date, or where
    /// `all` are wanted.
    pub open spec fn is_summing_up(
        self,
        after: StatsMeleeApp,
        db_path: Result<PathBuf, String>,
        r: Option<SummaryRequest>,
        all: bool,
    ) -> bool {
        match (user_of(self.config.user_player_code@), db_path) {
            (None, _) => r is None && after == self.without_summaries(),
            (Some(code), Err(e)) => {
                &&& r is None
                &&& after.summary_for matches Some(k) && k@ == self.filter.key_for(code)
                &&& after == (StatsMeleeApp {
                    has_filtered: false,
                    has_career: false,
                    summary_error: Some(e),
                    summary_for: after.summary_for,
                    ..self
                })
            },
            (Some(code), Ok(p)) => {
                &&& r matches Some(req) && req.code@ == code && req.db_path == p
                    && req.recompute_career == (all || self.career_is_stale(code)) && (
                match req.game_ids {
                    Some(ids) => self.counted_games() == Some(ids@),
                    None => self.counted_games() is None,
                })
                &&& after.summary_for matches Some(k) && k@ == self.filter.key_for(code)
                &&& after == (StatsMeleeApp {
                    summary_loading: true,
                    summary_error: None,
                    summary_for: after.summary_for,
                    ..self
                })
            },
        }
    }

    /// Starts to make the summaries for the user's code and the filter, or
    /// drops them where there is no code. The summary of all games is made anew
    /// only where it is out of date.
    pub fn reload_summary(&mut self, db_path: Result<PathBuf, String>) -> (r: Option<SummaryRequest>)
        requires
            old(self).wf(),
            user_of(old(self).config.user_player_code@) is Some && db_path is Ok
                ==> old(self).filter.can_judge_all(old(self).rows@),
        ensures
            final(self).wf(),
            old(self).is_summing_up(*final(self), db_path, r, false),
    {
        let code = trim(self.config.user_player_code.as_str()).to_owned();
        if code.as_str().is_empty() {
            self.has_filtered = false;
            self.has_career = false;
            self.summary_error = None;
            self.summary_for = None;
            self.summary_loading = false;
            return None;
        }
        let key = self.filter.summary_key(code.as_str());
        match db_path {
            Err(e) => {
                self.has_filtered = false;
                self.has_career = false;
                self.summary_error = Some(e);
                self.summary_for = Some(key);
                None
            },
            Ok(p) => {
                let game_ids: Option<Vec<i32>> = if self.filter.structured_filter_active() {
                    Some(
                        library_filtered_game_ids(
                            &self.filter,
                            &self.rows,
                            self.config.user_player_code.as_str(),
                        ),
                    )
                } else {
                    None
                };
                let same_code: bool = match &self.summary_for {
                    Some(k) => same(k.code.as_str(), code.as_str()),
                    None => false,
                };
                let recompute_career: bool = !self.has_career || !same_code;
                self.summary_loading = true;
                self.summary_for = Some(key);
                self.summary_error = None;
                Some(SummaryRequest { code, db_path: p, game_ids, recompute_career })
            },
        }
    }

    /// Starts to make every summary anew, even where it is up to date.
    pub fn refresh_summary(&mut self, db_path: Result<PathBuf, String>) -> (r: Option<SummaryRequest>)
        requires
            old(self).wf(),
            user_of(old(self).config.user_player_code@) is Some && db_path is Ok
                ==> old(self).filter.can_judge_all(old(self).rows@),
        ensures
            final(self).wf(),
            old(self).is_summing_up(*final(self), db_path, r, true),
    {
        let loading: bool = self.summary_loading;
        self.summary_loading = false;
        self.summary_for = None;
        let unresolved: bool = db_path.is_err();
        let r = self.reload_summary(db_path);
        if unresolved && self.summary_for.is_some() {
            self.summary_loading = loading;
        }
        r
    }

    /// Whether `after` is `self` after what the channel of the summaries gave.
    pub open spec fn has_summary_news(
        self,
        after: StatsMeleeApp,
        polled: Polled<Result<bool, String>>,
    ) -> bool {
        if !self.summary_loading {
            after == self
        } else {
            match polled {
                Polled::Sent(Ok(career)) => after == (StatsMeleeApp {
                    has_filtered: true,
                    has_career: self.has_career || career,
                    summary_error: None,
                    summary_loading: false,
                    ..self
                }),
                Polled::Sent(Err(e)) => after == (StatsMeleeApp {
                    has_filtered: false,
                    has_career: false,
                    summary_error: Some(e),
                    summary_loading: false,
                    ..self
                }),
                Polled::Empty => after == self,
                Polled::Disconnected => says(
                    after.summary_error,
                    "summary worker exited without producing a result"@,
                ) && after == (StatsMeleeApp {
                    summary_error: after.summary_error,
                    summary_loading: false,
                    ..self
                }),
            }
        }
    }

    /// What the channel of the summaries gave, where they are being made: that
    /// they are made (with the summary of all games, or without), or why not.
    pub fn poll_summary_worker(&mut self, polled: Polled<Result<bool, String>>)
        requires
            old(self).wf(),
        ensures
            final(self).wf(),
            old(self).has_summary_news(*final(self), polled),
    {
        if !self.summary_loading {
            return;
        }
        match polled {
            Polled::Sent(Ok(career)) => {
                self.has_filtered = true;
                if career {
                    self.has_career = true;
                }
                self.summary_error = None;
                self.summary_loading = false;
            },
            Polled::Sent(Err(e)) => {
                self.has_filtered = false;
                self.has_career = false;
                self.summary_error = Some(e);
                self.summary_loading = false;
            },
            Polled::Empty => {},
            Polled::Disconnected => {
                self.summary_error = Some(
                    "summary worker exited without producing a result".to_owned(),
                );
                self.summary_loading = false;
            },
        }
    }

    // ------------------------------------------------------------- the viewer

    /// The game on view was loaded, or was not; without a result the database
    /// is not open. Nothing changes then, nor where no game is on view.
    pub fn reload_viewer(&mut self, result: Option<Result<ViewerState, String>>)
        requires
            old(self).wf(),
        ensures
            final(self).wf(),
            *final(self) == (StatsMeleeApp {
                viewer_state: final(self).viewer_state,
                ..*old(self)
            }),
            if old(self).viewing_game_id is None {
                final(self).viewer_state == old(self).viewer_state
            } else {
                match result {
                    Some(v) => final(self).viewer_state == Some(v),
                    None => final(self).viewer_state == old(self).viewer_state,
                }
            },
    {
        if self.viewing_game_id.is_none() {
            return;
        }
        match result {
            Some(v) => {
                self.viewer_state = Some(v);
            },
            None => {},
        }
    }

    /// The path of the replay on view, where it has one.
    pub open spec fn replay_on_view(self) -> Option<Seq<char>> {
        match self.viewer_state {
            Some(Ok(v)) => opt_text(v.replay_path),
            _ => None,
        }
    }

    /// Whether `after` is `self` after a launch was asked for, and `r` the replay
    /// to launch.
    pub open spec fn is_launching(self, after: StatsMeleeApp, r: Option<String>) -> bool {
        &&& opt_text(r) == self.replay_on_view()
        &&& match self.viewer_state {
            Some(Ok(v)) => if v.replay_path is Some {
                after == self
            } else {
                fails(
                    after.last_slippi_launch,
                    SlippiLaunchError::NoReplayPath.text(),
                ) && after == (StatsMeleeApp {
                    last_slippi_launch: after.last_slippi_launch,
                    ..self
                })
            },
            _ => fails(after.last_slippi_launch, "no replay loaded to launch"@)
                && after == (StatsMeleeApp {
                last_slippi_launch: after.last_slippi_launch,
                ..self
            }),
        }
    }

    /// The replay to launch, where the game on view has one; else the user is
    /// told why not.
    pub fn launch_in_slippi(&mut self) -> (r: Option<String>)
        requires
            old(self).wf(),
        ensures
            final(self).wf(),
            old(self).is_launching(*final(self), r),
    {
        let path: Option<String> = match &self.viewer_state {
            Some(Ok(v)) => match &v.replay_path {
                Some(p) => Some(p.clone()),
                None => None,
            },
            _ => {
                self.last_slippi_launch = Some(Err("no replay loaded to launch".to_owned()));
                return None;
            },
        };
        if path.is_none() {
            self.last_slippi_launch = Some(Err(SlippiLaunchError::NoReplayPath.message()));
        }
        path
    }

    /// The replay was launched, or was not.
    pub fn slippi_launched(&mut self, result: Result<(), SlippiLaunchError>)
        requires
            old(self).wf(),
        ensures
            final(self).wf(),
            match result {
                Ok(_) => *final(self) == (StatsMeleeApp {
                    last_slippi_launch: Some(Ok(())),
                    ..*old(self)
                }),
                Err(e) => fails(final(self).last_slippi_launch, e.text()) && *final(self) == (
                StatsMeleeApp { last_slippi_launch: final(self).last_slippi_launch, ..*old(self) }),
            },
    {
        match result {
            Ok(_) => {
                self.last_slippi_launch = Some(Ok(()));
            },
            Err(e) => {
                self.last_slippi_launch = Some(Err(e.message()));
            },
        }
    }

    /// Whether the game on view can be launched: it has a path that is not
    /// empty.
    pub open spec fn is_launchable(self) -> bool {
        self.replay_on_view() matches Some(p) && p.len() > 0
    }

    /// Whether the game on view can be launched.
    pub fn can_launch(&self) -> (r: bool)
        ensures
            r == self.is_launchable(),
    {
        match &self.viewer_state {
            Some(Ok(v)) => match &v.replay_path {
                Some(p) => !p.as_str().is_empty(),
                None => false,
            },
            _ => false,
        }
    }

    /// Whether a render can be started: none runs, a disc image is set, and the
    /// game on view can be launched.
    pub open spec fn is_renderable(self) -> bool {
        self.render_in_flight_hash is None && self.config.melee_iso_path is Some
            && self.is_launchable()
    }

    /// Whether a render can be started.
    pub fn can_render(&self) -> (r: bool)
        ensures
            r == self.is_renderable(),
    {
        self.render_in_flight_hash.is_none() && self.config.melee_iso_path.is_some()
            && self.can_launch()
    }

    /// What hovers over the launch button.
    pub fn launch_hint(&self) -> (r: &'static str)
        ensures
            r@ == (if self.replay_on_view() matches Some(p) && p.len() > 0 {
                "Launches the .slp in your local Slippi Dolphin install"@
            } else {
                "No replay file path on this game row — re-ingest to enable"@
            }),
    {
        if self.can_launch() {
            "Launches the .slp in your local Slippi Dolphin install"
        } else {
            "No replay file path on this game row — re-ingest to enable"
        }
    }

    /// What hovers over the render button, where there is a video already
    /// (`cached`) or there is none.
    pub fn render_hint(&self, cached: bool) -> (r: &'static str)
        ensures
            r@ == (if self.config.melee_iso_path is None {
                "Set the Melee ISO path in Settings to enable rendering"@
            } else if self.render_in_flight_hash is Some {
                "Render already in progress"@
            } else if cached {
                "Re-render this replay (replaces the cached MP4)"@
            } else if self.replay_on_view() matches Some(p) && p.len() > 0 {
                "Renders this replay headlessly via Slippi Dolphin + ffmpeg (a few seconds for a 5-minute replay)"@
            } else {
                "No replay file path on this game row — re-ingest to enable"@
            }),
    {
        if self.config.melee_iso_path.is_none() {
            "Set the Melee ISO path in Settings to enable rendering"
        } else if self.render_in_flight_hash.is_some() {
            "Render already in progress"
        } else if cached {
            "Re-render this replay (replaces the cached MP4)"
        } else if self.can_launch() {
            "Renders this replay headlessly via Slippi Dolphin + ffmpeg (a few seconds for a 5-minute replay)"
        } else {
            "No replay file path on this game row — re-ingest to enable"
        }
    }

    // ---------------------------------------------------------------- renders

    /// Why a render cannot be started, where it cannot: the first of what is
    /// missing.
    pub open spec fn render_obstacle(self, has_hash: bool, iso_is_file: bool) -> Option<Seq<char>> {
        match self.viewer_state {
            Some(Ok(v)) => if v.replay_path is None {
                Some("this replay has no path on disk; re-ingest to enable rendering"@)
            } else if !has_hash {
                Some(
                    "this replay was ingested before content_hash existed; re-ingest to enable rendering"@,
                )
            } else if self.config.melee_iso_path is None {
                Some("set the Melee ISO path in Settings to enable rendering"@)
            } else if !iso_is_file {
                Some("Melee ISO not found at "@ + self.config.melee_iso_path->0@)
            } else if as_strs(self.config.slippi_playback_command) is None {
                Some("couldn't find vanilla Dolphin — set the Dolphin binary path in Settings"@)
            } else {
                None
            },
            _ => Some("no replay loaded to render"@),
        }
    }

    /// Whether `req` asks for a render of the game on view.
    pub open spec fn is_render(
        self,
        req: RenderRequest,
        hash: Seq<char>,
        ffmpeg: Seq<char>,
        video_dir: Seq<char>,
    ) -> bool {
        &&& Some(req.slp_path@) == self.replay_on_view()
        &&& req.slp_hash@ == hash
        &&& req.melee_iso@ == self.config.melee_iso_path->0@
        &&& req.dolphin_binary@ == program_of(
            self.style,
            as_strs(self.config.slippi_playback_command)->0,
        )
        &&& req.ffmpeg_binary@ == ffmpeg
        &&& req.mp4_out@ == joined(self.style, video_dir, hash + ".mp4"@)
    }

    /// What is to be rendered, or why nothing can be.
    fn render_request(
        &self,
        content_hash: Option<String>,
        iso_is_file: bool,
        ffmpeg: &str,
        video_dir: &str,
    ) -> (r: Result<RenderRequest, String>)
        ensures
            match r {
                Ok(req) => self.render_obstacle(content_hash is Some, iso_is_file) is None
                    && self.is_render(req, content_hash->0@, ffmpeg@, video_dir@),
                Err(words) => self.render_obstacle(content_hash is Some, iso_is_file) == Some(words@),
            },
    {
        let slp_path = match &self.viewer_state {
            Some(Ok(v)) => match &v.replay_path {
                Some(p) => p.clone(),
                None => {
                    return Err(
                        "this replay has no path on disk; re-ingest to enable rendering".to_owned(),
                    );
                },
            },
            _ => {
                return Err("no replay loaded to render".to_owned());
            },
        };
        let slp_hash = match content_hash {
            Some(h) => h,
            None => {
                return Err(
                    "this replay was ingested before content_hash existed; re-ingest to enable rendering".to_owned(),
                );
            },
        };
        let melee_iso = match &self.config.melee_iso_path {
            Some(p) => p.clone(),
            None => {
                return Err("set the Melee ISO path in Settings to enable rendering".to_owned());
            },
        };
        if !iso_is_file {
            return Err(words_of("Melee ISO not found at ", melee_iso.as_str()));
        }
        let dolphin_binary = match resolve_vanilla_dolphin_binary(&self.config, self.style) {
            Some(p) => p,
            None => {
                return Err(
                    "couldn't find vanilla Dolphin — set the Dolphin binary path in Settings".to_owned(),
                );
            },
        };
        let mp4_out = join(self.style, video_dir, words_of(slp_hash.as_str(), ".mp4").as_str());
        Ok(
            RenderRequest {
                slp_path,
                slp_hash,
                melee_iso,
                dolphin_binary,
                ffmpeg_binary: ffmpeg.to_owned(),
                mp4_out,
            },
        )
    }

    /// Whether `after` is `self` after a render was asked for, and `r` what is to
    /// be rendered.
    pub open spec fn is_rendering(
        self,
        after: StatsMeleeApp,
        content_hash: Option<String>,
        iso_is_file: bool,
        ffmpeg: Seq<char>,
        video_dir: Seq<char>,
        r: Option<RenderRequest>,
    ) -> bool {
        if self.render_in_flight_hash is Some {
            r is None && after == self
        } else {
            match self.render_obstacle(content_hash is Some, iso_is_file) {
                Some(words) => r is None && fails(after.last_render_summary, words)
                    && after == (StatsMeleeApp {
                    last_render_summary: after.last_render_summary,
                    ..self
                }),
                None => {
                    &&& r matches Some(req) && self.is_render(
                        req,
                        content_hash->0@,
                        ffmpeg,
                        video_dir,
                    )
                    &&& opt_text(after.render_in_flight_hash) == Some(content_hash->0@)
                    &&& says(after.render_status, "Starting render"@)
                    &&& after == (StatsMeleeApp {
                        render_in_flight_hash: after.render_in_flight_hash,
                        render_status: after.render_status,
                        last_render_summary: None,
                        ..self
                    })
                },
            }
        }
    }

    /// Starts to render the game on view, unless a render runs. `content_hash`
    /// is the hash of its replay, `iso_is_file` whether the disc image is there,
    /// `ffmpeg` the program that joins the video, and `video_dir` the directory
    /// that keeps it.
    pub fn start_render(
        &mut self,
        content_hash: Option<String>,
        iso_is_file: bool,
        ffmpeg: &str,
        video_dir: &str,
    ) -> (r: Option<RenderRequest>)
        requires
            old(self).wf(),
        ensures
            final(self).wf(),
            old(self).is_rendering(*final(self), content_hash, iso_is_file, ffmpeg@, video_dir@, r),
    {
        if self.render_in_flight_hash.is_some() {
            return None;
        }
        match self.render_request(content_hash, iso_is_file, ffmpeg, video_dir) {
            Ok(req) => {
                self.render_in_flight_hash = Some(req.slp_hash.clone());
                self.render_status = Some("Starting render".to_owned());
                self.last_render_summary = None;
                Some(req)
            },
            Err(words) => {
                self.last_render_summary = Some(Err(words));
                None
            },
        }
    }

    /// Whether `after` is `self` after what the renderer's channel gave, and `step`
    /// what it calls for.
    pub open spec fn has_render_news(
        self,
        after: StatsMeleeApp,
        polled: Polled<RenderMsg>,
        step: RenderStep,
    ) -> bool {
        if self.render_in_flight_hash is None {
            step is Stop && after == self
        } else {
            match polled {
                Polled::Sent(RenderMsg::Progress(s)) => step is Continue && after == (
                StatsMeleeApp { render_status: Some(s), ..self }),
                Polled::Sent(RenderMsg::Done(result)) => {
                    &&& after == (StatsMeleeApp {
                        render_in_flight_hash: None,
                        render_status: None,
                        last_render_summary: Some(result),
                        ..self
                    })
                    &&& match step {
                        RenderStep::Finalize(h) => result is Ok && self.render_in_flight_hash
                            == Some(h),
                        RenderStep::Stop => result is Err,
                        RenderStep::Continue => false,
                    }
                },
                Polled::Empty => step is Stop && after == self,
                Polled::Disconnected => step is Stop && fails(
                    after.last_render_summary,
                    "render worker exited without producing a video"@,
                ) && after == (StatsMeleeApp {
                    render_in_flight_hash: None,
                    render_status: None,
                    last_render_summary: after.last_render_summary,
                    ..self
                }),
            }
        }
    }

    /// What the renderer's channel gave, where a render runs.
    pub fn poll_render_worker(&mut self, polled: Polled<RenderMsg>) -> (step: RenderStep)
        requires
            old(self).wf(),
        ensures
            final(self).wf(),
            old(self).has_render_news(*final(self), polled, step),
    {
        if self.render_in_flight_hash.is_none() {
            return RenderStep::Stop;
        }
        match polled {
            Polled::Sent(RenderMsg::Progress(s)) => {
                self.render_status = Some(s);
                RenderStep::Continue
            },
            Polled::Sent(RenderMsg::Done(result)) => {
                let mut hash: Option<String> = None;
                std::mem::swap(&mut self.render_in_flight_hash, &mut hash);
                self.render_status = None;
                let ok: bool = result.is_ok();
                self.last_render_summary = Some(result);
                match hash {
                    Some(h) => if ok {
                        RenderStep::Finalize(h)
                    } else {
                        RenderStep::Stop
                    },
                    None => RenderStep::Stop,
                }
            },
            Polled::Empty => RenderStep::Stop,
            Polled::Disconnected => {
                self.render_in_flight_hash = None;
                self.render_status = None;
                self.last_render_summary = Some(
                    Err("render worker exited without producing a video".to_owned()),
                );
                RenderStep::Stop
            },
        }
    }
}

/// A second click on a column turns the direction back.
pub proof fn two_clicks_restore_the_direction(before: StatsMeleeApp, after: StatsMeleeApp, key: SortKey)
    requires
        before.sort_key == key,
        before.is_sorted_as(after, key, before.direction_after(key)),
    ensures
        after.direction_after(key) == before.sort_direction,
{
}

/// Away from the viewer's page no game is on view.
pub proof fn leaving_drops_the_game(app: StatsMeleeApp, page: Page)
    requires
        app.wf(),
        page != Page::ReplayViewer,
    ensures
        app.on_page(page).viewing_game_id is None,
        app.on_page(page).viewer_state is None,
{
}

/// A deleted game is gone from the rows, and every other row stays.
pub proof fn deleted_games_are_gone(rows: Seq<ReplayRow>, game_id: i32)
    ensures
        ({
            let left = rows.filter(|r: ReplayRow| r.game_id != game_id);
            &&& forall|i: int| 0 <= i < left.len() ==> (#[trigger] left[i]).game_id != game_id
            &&& forall|r: ReplayRow|
                rows.contains(r) && r.game_id != game_id ==> #[trigger] left.contains(r)
        }),
{
    let keep = |r: ReplayRow| r.game_id != game_id;
    let left = rows.filter(keep);
    broadcast use vstd::seq_lib::group_filter_ensures;

    assert forall|i: int| 0 <= i < left.len() implies (#[trigger] left[i]).game_id != game_id by {
        assert(keep(left[i]));
    }
    assert forall|r: ReplayRow| rows.contains(r) && r.game_id != game_id implies #[trigger] left.contains(
        r,
    ) by {
        assert(keep(r));
    }
}

/// The rows of every other game.
fn without_game(rows: Vec<ReplayRow>, game_id: i32) -> (r: Vec<ReplayRow>)
    ensures
        r@ == rows@.filter(|r: ReplayRow| r.game_id != game_id),
{
    let ghost all = rows@;
    let ghost keep = |r: ReplayRow| r.game_id != game_id;
    let mut out: Vec<ReplayRow> = Vec::new();
    proof {
        reveal(Seq::filter);
        assert(all.take(0).filter(keep) =~= Seq::<ReplayRow>::empty());
    }
    for r in it: rows
        invariant
            it.seq() == all,
            keep == (|r: ReplayRow| r.game_id != game_id),
            out@ == all.take(it.index()).filter(keep),
    {
        proof {
            reveal(Seq::filter);
            assert(all.take(it.index() + 1).drop_last() =~= all.take(it.index()));
        }
        if r.game_id != game_id {
            out.push(r);
        }
    }
    assert(all.take(all.len() as int) =~= all);
    out
}

// ------------------------------------------------------------------------ laws

/// Whether two states hold the same rows, in the same order, under the same
/// settings and filter.
pub open spec fn same_library(a: StatsMeleeApp, b: StatsMeleeApp) -> bool {
    &&& a.rows == b.rows
    &&& a.config == b.config
    &&& a.filter == b.filter
    &&& a.sort_key == b.sort_key
    &&& a.sort_direction == b.sort_direction
    &&& a.style == b.style
}

/// Going to a page leads there and leaves the library as it is. On another page
/// no question is open, and no word on the last deletion; going to the page
/// that is shown changes nothing.
pub proof fn pages_leave_the_library_alone(app: StatsMeleeApp, page: Page)
    ensures
        app.on_page(page).page == page,
        same_library(app, app.on_page(page)),
        app.page == page ==> app.on_page(page) == app,
        app.page != page ==> !app.on_page(page).nuke_confirm_pending && app.on_page(
            page,
        ).delete_confirm_game_id is None && app.on_page(page).last_delete_summary is None,
        app.on_page(page).summary_loading == app.summary_loading,
        app.on_page(page).ingest_loading == app.ingest_loading,
        app.on_page(page).render_in_flight_hash == app.render_in_flight_hash,
{
}

/// A game on view is shown on the viewer's page and yet to be loaded; what was
/// said of another game is gone, and the library stays as it is.
pub proof fn games_on_view_start_anew(app: StatsMeleeApp, game_id: i32)
    ensures
        app.on_game(game_id).page == Page::ReplayViewer,
        app.on_game(game_id).viewing_game_id == Some(game_id),
        app.on_game(game_id).viewer_state is None,
        app.on_game(game_id).last_slippi_launch is None,
        app.on_game(game_id).last_render_summary is None,
        !app.on_game(game_id).nuke_confirm_pending,
        app.on_game(game_id).delete_confirm_game_id is None,
        same_library(app, app.on_game(game_id)),
        app.on_game(game_id).render_in_flight_hash == app.render_in_flight_hash,
{
}

/// The gear leads to the settings from every other page, and from the settings
/// to the library.
pub proof fn the_gear_leads_to_the_settings_and_back(page: Page)
    ensures
        page != Page::Settings ==> StatsMeleeApp::gear_leads(page) == Page::Settings,
        page != Page::Settings ==> StatsMeleeApp::gear_leads(StatsMeleeApp::gear_leads(page))
            == Page::ReplayLibrary,
        StatsMeleeApp::gear_leads(page) != page,
{
}

/// A click on the column that the rows are sorted by turns the direction round;
/// on another it takes that column's own.
pub proof fn clicks_turn_the_direction(app: StatsMeleeApp, key: SortKey)
    ensures
        app.sort_key == key ==> app.direction_after(key) != app.sort_direction,
        app.sort_key != key ==> app.direction_after(key) == key.first_direction(),
        StatsMeleeApp::flipped(StatsMeleeApp::flipped(app.sort_direction)) == app.sort_direction,
        StatsMeleeApp::flipped(app.sort_direction) != app.sort_direction,
{
}

/// Sorting changes the order of the rows and nothing else that is shown.
pub proof fn sorting_changes_the_order_alone(
    app: StatsMeleeApp,
    after: StatsMeleeApp,
    key: SortKey,
    dir: SortDirection,
)
    requires
        app.is_sorted_as(after, key, dir),
    ensures
        after.sort_key == key,
        after.sort_direction == dir,
        after.rows@.len() == app.rows@.len(),
        after.page == app.page && after.config == app.config && after.filter == app.filter,
        after.viewing_game_id == app.viewing_game_id,
{
    sorting_only_moves_rows(after.rows@, app.rows@, key, dir);
}

/// Rows that could not be loaded leave those that are there; loaded ones take
/// their place and clear the error.
pub proof fn failed_loads_keep_the_rows(
    app: StatsMeleeApp,
    after: StatsMeleeApp,
    result: Result<Vec<ReplayRow>, String>,
)
    requires
        app.is_reloaded(after, result),
    ensures
        result matches Err(e) ==> after.rows == app.rows && after.rows_error == Some(e),
        result matches Ok(rows) ==> after.rows_error is None && after.rows@.len() == rows@.len(),
        after.page == app.page && after.config == app.config && after.filter == app.filter
            && after.sort_key == app.sort_key && after.sort_direction == app.sort_direction,
{
    if let Ok(rows) = result {
        sorting_only_moves_rows(after.rows@, rows@, app.sort_key, app.sort_direction);
    }
}

/// A game that the database dropped is gone from the rows, every other row
/// stays, what counted it is forgotten, and its cached analysis is to go. Where
/// the database dropped nothing, every row stays and the reason is told.
pub proof fn deletions_drop_one_game(
    app: StatsMeleeApp,
    after: StatsMeleeApp,
    game_id: i32,
    outcome: Option<Result<usize, String>>,
    content_hash: Option<String>,
    stale: Option<String>,
)
    requires
        app.is_without(after, game_id, outcome, content_hash, stale),
    ensures
        (outcome matches Some(Ok(n)) && n > 0) ==> {
            &&& forall|i: int| 0 <= i < after.rows@.len() ==> (#[trigger] after.rows@[i]).game_id != game_id
            &&& forall|r: ReplayRow|
                app.rows@.contains(r) && r.game_id != game_id ==> #[trigger] after.rows@.contains(r)
            &&& stale == content_hash
            &&& !after.has_filtered && !after.has_career && after.summary_for is None
            &&& after.last_delete_summary == Some(Ok::<i32, String>(game_id))
        },
        !(outcome matches Some(Ok(n)) && n > 0) ==> {
            &&& after.rows == app.rows
            &&& stale is None
            &&& after.last_delete_summary matches Some(Err(_))
            &&& after.has_filtered == app.has_filtered && after.has_career == app.has_career
                && after.summary_for == app.summary_for
        },
        outcome is Some ==> after.delete_confirm_game_id is None,
        after.page == app.page && after.config == app.config && after.filter == app.filter,
{
    deleted_games_are_gone(app.rows@, game_id);
}

/// Where the database dropped every game no row is left, what counted them is
/// forgotten, and the cache is to be cleared; else every row stays.
pub proof fn deletions_of_all_drop_every_game(
    app: StatsMeleeApp,
    after: StatsMeleeApp,
    outcome: Option<Result<usize, String>>,
    clear: bool,
)
    requires
        app.is_emptied(after, outcome, clear),
    ensures
        clear <==> outcome matches Some(Ok(_)),
        clear ==> after.rows@.len() == 0 && !after.has_filtered && !after.has_career
            && after.summary_for is None && !after.summary_loading,
        !clear ==> after.rows == app.rows && after.has_filtered == app.has_filtered
            && after.has_career == app.has_career && after.summary_for == app.summary_for,
        outcome is Some ==> !after.nuke_confirm_pending,
        outcome is None ==> after.nuke_confirm_pending == app.nuke_confirm_pending,
        after.last_nuke_summary is Some,
        after.page == app.page && after.config == app.config && after.filter == app.filter,
{
}

/// A scan starts exactly where none runs, a folder is set and the database has
/// a path; it is then of that folder, and runs. The user is told something
/// unless one runs already.
pub proof fn scans_do_not_overlap(
    app: StatsMeleeApp,
    after: StatsMeleeApp,
    db_path: Result<PathBuf, String>,
    r: Option<(String, PathBuf)>,
)
    requires
        app.is_scanning(after, db_path, r),
    ensures
        r is Some <==> !app.ingest_loading && app.config.replay_dir is Some && db_path is Ok,
        r matches Some((dir, p)) ==> opt_text(app.config.replay_dir) == Some(dir@) && db_path == Ok::<
            PathBuf,
            String,
        >(p),
        after.ingest_loading <==> app.ingest_loading || r is Some,
        app.ingest_loading ==> after == app,
        !app.ingest_loading ==> after.last_ingest_summary is Some,
        same_library(app, after),
        after.page == app.page,
{
}

/// A scan runs on until its channel gives a result or closes; the rows are
/// loaded anew exactly where games may have been added.
pub proof fn scans_end_with_their_news(
    app: StatsMeleeApp,
    after: StatsMeleeApp,
    polled: Polled<Result<usize, String>>,
    reload: bool,
)
    requires
        app.has_scan_news(after, polled, reload),
    ensures
        after.ingest_loading <==> app.ingest_loading && polled is Empty,
        reload <==> app.ingest_loading && (polled matches Polled::Sent(x) && x is Ok),
        !app.ingest_loading || polled is Empty ==> after == app,
        same_library(app, after),
        after.page == app.page,
{
}

/// A scan is due once for a folder: after it counts as started none is, until
/// another folder is picked.
pub proof fn scans_are_due_once(app: StatsMeleeApp, after: StatsMeleeApp)
    requires
        after == (StatsMeleeApp {
            auto_scan_attempted: app.auto_scan_attempted || app.is_scan_due(),
            ..app
        }),
    ensures
        app.is_scan_due() ==> app.config.replay_dir is Some && !app.ingest_loading,
        !after.is_scan_due(),
        app.config.replay_dir is Some && !app.ingest_loading && !app.auto_scan_attempted
            ==> app.is_scan_due(),
{
}

/// Summaries are made exactly where the user has a code and the database a
/// path: for that code, over all games unless a filter is active, and then over
/// the games that it shows. They are then being made for the filter as it is.
pub proof fn summaries_count_what_is_shown(
    app: StatsMeleeApp,
    after: StatsMeleeApp,
    db_path: Result<PathBuf, String>,
    r: Option<SummaryRequest>,
    all: bool,
)
    requires
        app.is_summing_up(after, db_path, r, all),
    ensures
        r is Some <==> trimmed(app.config.user_player_code@).len() > 0 && db_path is Ok,
        r matches Some(req) ==> {
            &&& req.code@ == trimmed(app.config.user_player_code@)
            &&& db_path == Ok::<PathBuf, String>(req.db_path)
            &&& req.game_ids is None <==> !app.filter.is_active()
            &&& req.game_ids matches Some(ids) ==> ids@ == ids_at(
                app.rows@,
                shown_places(
                    app.filter,
                    app.rows@,
                    Some(trimmed(app.config.user_player_code@)),
                    app.rows@.len() as int,
                ),
            )
            &&& all || !app.has_career || app.summary_for is None ==> req.recompute_career
            &&& app.summary_for is Some && app.summary_for->0.code@ != req.code@ ==> req.recompute_career
            &&& !all && app.has_career && (app.summary_for matches Some(k) && k.code@ == req.code@)
                ==> !req.recompute_career
            &&& after.summary_loading && after.summary_error is None
            &&& after.summary_for matches Some(k) && k@ == app.filter.key_for(req.code@)
        },
        db_path is Err && trimmed(app.config.user_player_code@).len() > 0 ==> after.summary_error
            == Some(db_path->Err_0) && !after.has_filtered && !after.has_career,
        trimmed(app.config.user_player_code@).len() == 0 ==> !after.has_filtered && !after.has_career
            && after.summary_for is None && !after.summary_loading,
        same_library(app, after),
        after.page == app.page,
{
}

/// Summaries that were asked for and made are not asked for again, as long as
/// the code and the filter stay; they are as soon as one of them changes.
pub proof fn summaries_are_made_once(
    app: StatsMeleeApp,
    asked: StatsMeleeApp,
    made: StatsMeleeApp,
    db_path: Result<PathBuf, String>,
    r: Option<SummaryRequest>,
    all: bool,
    career: bool,
    code: Seq<char>,
    filter: LibraryFilter,
)
    requires
        app.is_summing_up(asked, db_path, r, all),
        r is Some,
        asked.has_summary_news(made, Polled::Sent(Ok(career))),
    ensures
        made.has_filtered,
        r->0.recompute_career == career ==> made.has_career,
        !made.summary_loading && made.summary_error is None,
        !made.wants_summary(r->0.code@),
        made.db_open && code != r->0.code@ ==> made.wants_summary(code),
        made.db_open && filter.key_for(code) != app.filter.key_for(code) ==> (StatsMeleeApp {
            filter,
            ..made
        }).wants_summary(code),
        !asked.wants_summary(code),
{
    keys_tell_filters_apart(app.filter, app.filter, r->0.code@, code);
    keys_tell_filters_apart(app.filter, filter, r->0.code@, code);
    keys_tell_filters_apart(app.filter, filter, code, code);
}

/// What comes of the summaries: where they failed there are none and the reason
/// is told, and nobody waits for them any longer; without news nothing changes.
pub proof fn summaries_end_with_their_news(
    app: StatsMeleeApp,
    after: StatsMeleeApp,
    polled: Polled<Result<bool, String>>,
)
    requires
        app.has_summary_news(after, polled),
    ensures
        after.summary_loading <==> app.summary_loading && polled is Empty,
        !app.summary_loading || polled is Empty ==> after == app,
        app.summary_loading && (polled matches Polled::Sent(x) && x is Err) ==> !after.has_filtered
            && !after.has_career && after.summary_error is Some,
        app.summary_loading && polled is Disconnected ==> after.summary_error is Some
            && after.has_filtered == app.has_filtered && after.has_career == app.has_career,
        app.has_career && (polled matches Polled::Sent(x) && x is Ok) ==> after.has_career,
        same_library(app, after),
        after.summary_for == app.summary_for,
{
}

/// A replay is launched exactly where the game on view is loaded and has a path,
/// and it is that one; else the user is told why not.
pub proof fn launches_are_of_the_game_on_view(
    app: StatsMeleeApp,
    after: StatsMeleeApp,
    r: Option<String>,
)
    requires
        app.is_launching(after, r),
    ensures
        r is Some <==> (app.viewer_state matches Some(Ok(v)) && v.replay_path is Some),
        app.viewer_state matches Some(Ok(v)) ==> opt_text(r) == opt_text(v.replay_path),
        r is Some ==> after == app,
        r is None ==> after.last_slippi_launch matches Some(Err(_)),
        same_library(app, after),
        after.viewer_state == app.viewer_state,
{
}

/// A render can start exactly where the game on view has a path and a hash, the
/// disc image is set and there, and a Dolphin is set. Of what is missing the
/// first is told.
pub proof fn renders_need_everything(app: StatsMeleeApp, has_hash: bool, iso_is_file: bool)
    ensures
        app.render_obstacle(has_hash, iso_is_file) is None <==> (app.viewer_state matches Some(Ok(v))
            && v.replay_path is Some) && has_hash && app.config.melee_iso_path is Some && iso_is_file
            && (app.config.slippi_playback_command matches Some(s) && trimmed(s@).len() > 0),
        !(app.viewer_state matches Some(Ok(_))) ==> app.render_obstacle(has_hash, iso_is_file)
            == app.render_obstacle(!has_hash, !iso_is_file),
        app.config.melee_iso_path is None ==> app.render_obstacle(has_hash, iso_is_file)
            == app.render_obstacle(has_hash, !iso_is_file),
{
}

/// A render starts exactly where none runs and nothing is missing; it then runs
/// under the hash of the replay. Where something is missing that is told, and
/// where one runs nothing changes.
pub proof fn renders_do_not_overlap(
    app: StatsMeleeApp,
    after: StatsMeleeApp,
    content_hash: Option<String>,
    iso_is_file: bool,
    ffmpeg: Seq<char>,
    video_dir: Seq<char>,
    r: Option<RenderRequest>,
)
    requires
        app.is_rendering(after, content_hash, iso_is_file, ffmpeg, video_dir, r),
    ensures
        r is Some <==> app.render_in_flight_hash is None && app.render_obstacle(
            content_hash is Some,
            iso_is_file,
        ) is None,
        app.render_in_flight_hash is Some ==> after == app,
        r is Some ==> content_hash is Some && opt_text(after.render_in_flight_hash) == opt_text(
            content_hash,
        ) && after.render_status is Some && after.last_render_summary is None,
        r matches Some(req) ==> (app.viewer_state matches Some(Ok(v)) && opt_text(v.replay_path) == Some(
            req.slp_path@,
        )) && Some(req.slp_hash@) == opt_text(content_hash) && Some(req.melee_iso@) == opt_text(
            app.config.melee_iso_path,
        ) && req.ffmpeg_binary@ == ffmpeg,
        app.render_in_flight_hash is None && r is None ==> (after.last_render_summary matches Some(
            Err(_),
        )) && after.render_in_flight_hash is None,
        same_library(app, after),
        after.viewer_state == app.viewer_state,
{
}

/// A render speaks until it is done or its channel closes; a video is put in
/// place exactly where one was made, under the hash that was being rendered.
pub proof fn renders_end_with_their_news(
    app: StatsMeleeApp,
    after: StatsMeleeApp,
    polled: Polled<RenderMsg>,
    step: RenderStep,
)
    requires
        app.wf(),
        app.has_render_news(after, polled, step),
    ensures
        step matches RenderStep::Finalize(h) ==> app.render_in_flight_hash == Some(h)
            && after.render_in_flight_hash is None && (after.last_render_summary matches Some(Ok(_))),
        app.render_in_flight_hash is Some && (polled matches Polled::Sent(RenderMsg::Done(Ok(_))))
            ==> step is Finalize,
        polled matches Polled::Sent(RenderMsg::Done(x)) ==> (app.render_in_flight_hash is Some
            ==> after.render_in_flight_hash is None && after.last_render_summary == Some(x)),
        polled is Disconnected && app.render_in_flight_hash is Some ==> after.render_in_flight_hash is None
            && (after.last_render_summary matches Some(Err(_))),
        step is Continue <==> app.render_in_flight_hash is Some && (polled matches Polled::Sent(
            RenderMsg::Progress(_),
        )),
        app.render_in_flight_hash is None || polled is Empty ==> after == app,
        after.render_status is Some <==> after.render_in_flight_hash is Some,
        same_library(app, after),
{
}

/// A game on view can be launched exactly where it is loaded and has a path that
/// is not empty; it can be rendered where, besides, a disc image is set and no
/// render runs.
pub proof fn games_without_a_path_cannot_be_launched(app: StatsMeleeApp)
    ensures
        app.is_launchable() <==> (app.viewer_state matches Some(Ok(v)) && (v.replay_path matches Some(
            p,
        ) && p@.len() > 0)),
        app.is_renderable() ==> app.is_launchable() && app.config.melee_iso_path is Some
            && app.render_in_flight_hash is None,
        app.is_launchable() && app.config.melee_iso_path is Some && app.render_in_flight_hash is None
            ==> app.is_renderable(),
{
}

/// The program starts on the library as soon as a folder of replays is set, and
/// on the settings as long as none is; with every row to be shown and nothing
/// running.
pub proof fn the_program_starts_where_it_is_set_up(app: StatsMeleeApp, config: AppConfig, style: PathStyle)
    requires
        app.is_fresh(config, style),
    ensures
        app.page == Page::Settings <==> (config.replay_dir matches Some(p) ==> p@.len() == 0),
        app.page == Page::Settings || app.page == Page::ReplayLibrary,
        app.config == config,
        app.rows@.len() == 0,
        !app.filter.is_active(),
        !app.ingest_loading && !app.summary_loading && app.render_in_flight_hash is None,
        config.replay_dir is Some ==> app.is_scan_due(),
{
    cleared_filter_is_inactive(app.filter);
}

/// The database is open at a path only where it is open, and was opened at a
/// path that is the same place.
pub proof fn the_database_is_open_where_it_was_opened(app: StatsMeleeApp, path: PathBuf, at: PathBuf)
    ensures
        !app.db_open || app.db_opened_path is None ==> !app.is_open_at(path),
        app.db_open && app.db_opened_path == Some(at) ==> (app.is_open_at(path) <==> same_place(at, path)),
{
}

/// A render is made by the Dolphin that is set and goes to a file that is named
/// for the hash of the replay, in the directory of videos.
pub proof fn renders_go_to_a_file_of_their_own(
    app: StatsMeleeApp,
    req: RenderRequest,
    hash: Seq<char>,
    ffmpeg: Seq<char>,
    video_dir: Seq<char>,
)
    requires
        app.is_render(req, hash, ffmpeg, video_dir),
        app.config.slippi_playback_command is Some,
        trimmed(app.config.slippi_playback_command->0@).len() > 0,
    ensures
        req.dolphin_binary@ == program_of(
            app.style,
            trimmed(app.config.slippi_playback_command->0@),
        ),
        req.mp4_out@ == joined(app.style, video_dir, hash + ".mp4"@),
        req.slp_hash@ == hash,
        Some(req.slp_path@) == app.replay_on_view(),
{
}

} // verus!
