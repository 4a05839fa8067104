//! What the pages say: the words and marks of each, and what its clicks do.
use vstd::prelude::*;
use crate::app::{Page, StatsMeleeApp};
use crate::config::AppConfig;
use crate::gamedata::{attack_display_name, attack_text, AttackName};
use crate::library::{shown_places, user_of, visible_rows};
use crate::replay_list::{first_ten, ReplayRow, SortKey};
use crate::text::{
    decimal_text, integer_text, opt_text, push_decimal, push_integer, trim, trimmed,
};

verus! {

broadcast use vstd::string::group_string_axioms;

/// Whether videos can be rendered from the viewer.
pub const RENDER_VIDEO_FEATURE_ENABLED: bool = false;

/// A line that tells how something went.
#[derive(Debug)]
pub struct Status {
    pub good: bool,
    pub words: String,
}

/// Whether a status line reads as given.
pub open spec fn reads(s: Option<Status>, good: bool, words: Seq<char>) -> bool {
    s matches Some(x) && x.good == good && x.words@ == words
}

fn status(good: bool, before: &str, words: &str) -> (r: Option<Status>)
    ensures
        reads(r, good, before@ + words@),
{
    let mut out = before.to_owned();
    out.append(words);
    Some(Status { good, words: out })
}

// ----------------------------------------------------------------- the library

/// What the table of replays holds.
#[derive(Debug)]
pub enum ReplayTable {
    /// Nothing, and why.
    Empty(&'static str),
    /// The rows at these places.
    Rows(Vec<usize>),
}

/// A mark in the column of outcomes.
#[derive(Debug, Clone, Copy, PartialEq, Eq, Structural)]
pub enum OutcomeMark {
    Win,
    Loss,
    Unknown,
}

impl OutcomeMark {
    /// The mark of an outcome.
    pub fn of(user_won: Option<bool>) -> (r: OutcomeMark)
        ensures
            r == (match user_won {
                Some(true) => OutcomeMark::Win,
                Some(false) => OutcomeMark::Loss,
                None => OutcomeMark::Unknown,
            }),
    {
        match user_won {
            Some(won) => if won {
                OutcomeMark::Win
            } else {
                OutcomeMark::Loss
            },
            None => OutcomeMark::Unknown,
        }
    }

    pub fn glyph(self) -> (r: &'static str)
        ensures
            r@ == (match self {
                OutcomeMark::Win => "W"@,
                OutcomeMark::Loss => "L"@,
                OutcomeMark::Unknown => "–"@,
            }),
    {
        match self {
            OutcomeMark::Win => "W",
            OutcomeMark::Loss => "L",
            OutcomeMark::Unknown => "–",
        }
    }
}

/// What a date cell shows, and what hovers over it.
pub fn played_cell(r: &ReplayRow) -> (c: (&str, &str))
    requires
        r.played_cuts(),
    ensures
        match r.played_text() {
            Some(d) => c.0@ == d && Some(c.1@) == opt_text(r.played_at),
            None => c.0@ == "—"@ && c.1@ == "No play date — re-scan to add it"@,
        },
{
    match (r.played_date(), &r.played_at) {
        (Some(d), Some(full)) => (d, full.as_str()),
        _ => ("—", "No play date — re-scan to add it"),
    }
}

/// What the cell of the date of writing shows.
pub fn added_cell(r: &ReplayRow) -> (c: &str)
    requires
        r.added_cuts(),
    ensures
        c@ == (match first_ten(r.ingested_at@) {
            Some(d) => d,
            None => "—"@,
        }),
{
    match r.ingested_date() {
        Some(d) => d,
        None => "—",
    }
}

/// The clicks of one pass over the table.
pub struct TableClicks {
    /// The column whose head was clicked.
    pub sort: Option<SortKey>,
    /// The game to view.
    pub view: Option<i32>,
    /// Whether a question was waved off.
    pub cancel: bool,
    /// The game that may be deleted, once confirmed.
    pub arm: Option<i32>,
    /// The game that is to be deleted.
    pub confirm: Option<i32>,
}

/// What the clicks call for.
#[derive(Debug, Clone, Copy, PartialEq, Eq, Structural)]
pub struct TableStep {
    /// Whether the game on view is to be loaded.
    pub load_viewer: bool,
    /// The game that the database is to delete.
    pub delete: Option<i32>,
}

/// `app` after the clicks that follow the one on a column: a view, a question
/// waved off, a question asked.
pub open spec fn after_clicks(app: StatsMeleeApp, clicks: TableClicks) -> StatsMeleeApp {
    let a = match clicks.view {
        Some(id) => app.on_game(id),
        None => app,
    };
    let b = if clicks.cancel {
        StatsMeleeApp { delete_confirm_game_id: None, ..a }
    } else {
        a
    };
    match clicks.arm {
        Some(id) => StatsMeleeApp {
            delete_confirm_game_id: Some(id),
            last_delete_summary: None,
            ..b
        },
        None => b,
    }
}

/// Whether `mid` is `app` after a click on a column, where there was one.
pub open spec fn is_resorted(app: StatsMeleeApp, clicks: TableClicks, mid: StatsMeleeApp) -> bool {
    match clicks.sort {
        Some(key) => app.is_sorted_as(mid, key, app.direction_after(key)),
        None => mid == app,
    }
}

impl StatsMeleeApp {
    /// What the table of replays holds: the rows that the filter shows.
    pub fn replay_table(&self) -> (r: ReplayTable)
        requires
            self.filter.can_judge_all(self.rows@),
        ensures
            ({
                let places = shown_places(
                    self.filter,
                    self.rows@,
                    user_of(self.config.user_player_code@),
                    self.rows@.len() as int,
                );
                match r {
                    ReplayTable::Empty(why) => if self.rows@.len() == 0 {
                        why@ == "No replays ingested yet. Click \"Scan for new replays\"."@
                    } else {
                        places.len() == 0 && why@
                            == "No replays match the current filters. Clear them to see all rows."@
                    },
                    ReplayTable::Rows(v) => v@ == places && v@.len() > 0,
                }
            }),
    {
        if self.rows.len() == 0 {
            return ReplayTable::Empty("No replays ingested yet. Click \"Scan for new replays\".");
        }
        let v = visible_rows(&self.filter, &self.rows, self.config.user_player_code.as_str());
        if v.len() == 0 {
            ReplayTable::Empty("No replays match the current filters. Clear them to see all rows.")
        } else {
            ReplayTable::Rows(v)
        }
    }

    /// The clicks of one pass over the table, one after the other.
    pub fn table_clicked(&mut self, clicks: TableClicks) -> (step: TableStep)
        requires
            old(self).wf(),
        ensures
            final(self).wf(),
            exists|mid: StatsMeleeApp| #[trigger]
                is_resorted(*old(self), clicks, mid) && *final(self) == after_clicks(mid, clicks),
            step.load_viewer == (clicks.view is Some),
            step.delete == clicks.confirm,
    {
        match clicks.sort {
            Some(key) => {
                self.set_sort(key);
            },
            None => {},
        }
        let ghost mid = *self;
        match clicks.view {
            Some(id) => {
                self.open_viewer(id);
            },
            None => {},
        }
        if clicks.cancel {
            self.cancel_delete();
        }
        match clicks.arm {
            Some(id) => {
                self.arm_delete(id);
            },
            None => {},
        }
        assert(is_resorted(*old(self), clicks, mid));
        TableStep { load_viewer: clicks.view.is_some(), delete: clicks.confirm }
    }

    /// How many of the rows are shown, where a filter narrows them.
    pub fn showing(&self) -> (r: Option<String>)
        requires
            self.filter.can_judge_all(self.rows@),
        ensures
            match r {
                Some(s) => self.filter.is_active() && s@ == "Showing "@ + decimal_text(
                    shown_places(
                        self.filter,
                        self.rows@,
                        user_of(self.config.user_player_code@),
                        self.rows@.len() as int,
                    ).len(),
                ) + " of "@ + decimal_text(self.rows@.len()),
                None => !self.filter.is_active(),
            },
    {
        if !self.filter.structured_filter_active() {
            return None;
        }
        let v = visible_rows(&self.filter, &self.rows, self.config.user_player_code.as_str());
        let mut out = "Showing ".to_owned();
        push_decimal(&mut out, v.len() as u128);
        out.append(" of ");
        push_decimal(&mut out, self.rows.len() as u128);
        Some(out)
    }

    /// How many replays there are, where there are any.
    pub fn replay_count(&self) -> (r: Option<String>)
        ensures
            match r {
                Some(s) => self.rows@.len() > 0 && s@ == "· "@ + decimal_text(self.rows@.len())
                    + " replays"@,
                None => self.rows@.len() == 0,
            },
    {
        if self.rows.len() == 0 {
            return None;
        }
        let mut out = "· ".to_owned();
        push_decimal(&mut out, self.rows.len() as u128);
        out.append(" replays");
        Some(out)
    }

    /// How the last deletion went.
    pub fn delete_status(&self) -> (r: Option<Status>)
        ensures
            match self.last_delete_summary {
                None => r is None,
                Some(Ok(id)) => reads(r, true, "✓ Deleted game #"@ + integer_text(id as int) + "."@),
                Some(Err(e)) => reads(r, false, "⚠ "@ + e@),
            },
    {
        match &self.last_delete_summary {
            None => None,
            Some(Ok(id)) => {
                let mut out = "✓ Deleted game #".to_owned();
                push_integer(&mut out, *id as i64);
                out.append(".");
                Some(Status { good: true, words: out })
            },
            Some(Err(e)) => status(false, "⚠ ", e.as_str()),
        }
    }

    /// What hovers over the scan button.
    pub fn scan_hint(&self) -> (r: &'static str)
        ensures
            r@ == (if self.ingest_loading {
                "A scan is already running"@
            } else {
                "Walk the configured replay folder and ingest any .slp files we haven't seen before (off the UI thread)."@
            }),
    {
        if self.ingest_loading {
            "A scan is already running"
        } else {
            "Walk the configured replay folder and ingest any .slp files we haven't seen before (off the UI thread)."
        }
    }

    /// Shows the filters, or hides them.
    pub fn toggle_filters(&mut self)
        requires
            old(self).wf(),
        ensures
            final(self).wf(),
            *final(self) == (StatsMeleeApp {
                show_filter_panel: !old(self).show_filter_panel,
                ..*old(self)
            }),
    {
        self.show_filter_panel = !self.show_filter_panel;
    }

    /// What the button for the filters says.
    pub fn filters_label(&self) -> (r: &'static str)
        ensures
            r@ == (if self.show_filter_panel {
                "◀ Hide filters"@
            } else {
                "☰ Filters"@
            }),
    {
        if self.show_filter_panel {
            "◀ Hide filters"
        } else {
            "☰ Filters"
        }
    }

    /// Whether the filters stand beside the page: on the library and on the
    /// statistics, unless they are hidden.
    pub fn filters_shown(&self) -> (r: bool)
        ensures
            r == (self.show_filter_panel && (self.page == Page::ReplayLibrary || self.page
                == Page::Analytics)),
    {
        self.show_filter_panel && (self.page == Page::ReplayLibrary || self.page == Page::Analytics)
    }
}

/// The characters that the filter offers: those that can be played.
pub fn character_choices() -> (r: Vec<i32>)
    ensures
        r@ == Seq::new(27, |i: int| i as i32),
{
    let mut v: Vec<i32> = Vec::new();
    let mut i: i32 = 0;
    while i < 27
        invariant
            0 <= i <= 27,
            v@ == Seq::new(i as nat, |k: int| k as i32),
        decreases 27 - i,
    {
        v.push(i);
        i += 1;
        assert(v@ =~= Seq::new(i as nat, |k: int| k as i32));
    }
    v
}

/// The stages that the filter offers: those of tournaments.
pub fn stage_choices() -> (r: Vec<i32>)
    ensures
        r@ == seq![2i32, 3, 8, 28, 31, 32],
{
    let v: Vec<i32> = vec![2, 3, 8, 28, 31, 32];
    assert(v@ =~= seq![2i32, 3, 8, 28, 31, 32]);
    v
}

// ------------------------------------------------------------------ statistics

/// What a page of statistics shows.
#[derive(Debug, Clone, Copy, PartialEq, Eq, Structural)]
pub enum StatsBody {
    /// That the user has set no code.
    SetCode,
    /// The summary.
    Summary,
    /// That the summary is being made.
    Computing,
    /// That it is yet to be made.
    Loading,
    /// Nothing; the error is told elsewhere.
    Nothing,
}

/// What a page of statistics shows, where `ready` says whether its summary is
/// there.
pub open spec fn stats_body(app: StatsMeleeApp, ready: bool) -> StatsBody {
    if user_of(app.config.user_player_code@) is None {
        StatsBody::SetCode
    } else if ready {
        StatsBody::Summary
    } else if app.summary_loading {
        StatsBody::Computing
    } else if app.summary_error is None {
        StatsBody::Loading
    } else {
        StatsBody::Nothing
    }
}

impl StatsMeleeApp {
    fn body(&self, ready: bool) -> (r: StatsBody)
        ensures
            r == stats_body(*self, ready),
    {
        if trim(self.config.user_player_code.as_str()).is_empty() {
            StatsBody::SetCode
        } else if ready {
            StatsBody::Summary
        } else if self.summary_loading {
            StatsBody::Computing
        } else if self.summary_error.is_none() {
            StatsBody::Loading
        } else {
            StatsBody::Nothing
        }
    }

    /// What the page of the filtered statistics shows.
    pub fn analytics_body(&self) -> (r: StatsBody)
        ensures
            r == stats_body(*self, self.has_filtered),
    {
        self.body(self.has_filtered)
    }

    /// What the page of the career shows.
    pub fn career_body(&self) -> (r: StatsBody)
        ensures
            r == stats_body(*self, self.has_career),
    {
        self.body(self.has_career)
    }

    /// What is said of a summary without games.
    pub fn no_games_text(&self, code: &str) -> (r: String)
        ensures
            r@ == (if self.filter.is_active() {
                "No games match the current filter."@
            } else {
                "No games recorded yet for "@ + code@ + ". Ingest some replays first."@
            }),
    {
        if self.filter.structured_filter_active() {
            return "No games match the current filter.".to_owned();
        }
        let mut out = "No games recorded yet for ".to_owned();
        out.append(code);
        out.append(". Ingest some replays first.");
        out
    }
}

/// The places of the first `n` rows whose games are among `ids`, in order.
pub open spec fn places_with(rows: Seq<ReplayRow>, ids: Seq<i32>, n: int) -> Seq<usize>
    decreases n,
{
    if n <= 0 {
        seq![]
    } else if ids.contains(rows[n - 1].game_id) {
        places_with(rows, ids, n - 1).push((n - 1) as usize)
    } else {
        places_with(rows, ids, n - 1)
    }
}

fn is_among(ids: &Vec<i32>, id: i32) -> (r: bool)
    ensures
        r == ids@.contains(id),
{
    let mut i: usize = 0;
    while i < ids.len()
        invariant
            i <= ids.len(),
            forall|j: int| 0 <= j < i ==> ids@[j] != id,
        decreases ids.len() - i,
    {
        if ids[i] == id {
            return true;
        }
        i += 1;
    }
    false
}

/// The places of the rows whose games are among `ids`, in order.
pub fn places_of(rows: &Vec<ReplayRow>, ids: &Vec<i32>) -> (r: Vec<usize>)
    ensures
        r@ == places_with(rows@, ids@, rows@.len() as int),
        forall|k: int| 0 <= k < r@.len() ==> #[trigger] r@[k] < rows@.len(),
{
    let mut out: Vec<usize> = Vec::new();
    let mut i: usize = 0;
    while i < rows.len()
        invariant
            i <= rows.len(),
            out@ == places_with(rows@, ids@, i as int),
            forall|k: int| 0 <= k < out@.len() ==> #[trigger] out@[k] < i,
        decreases rows.len() - i,
    {
        if is_among(ids, rows[i].game_id) {
            out.push(i);
        }
        i += 1;
    }
    out
}

/// Games, wins and seconds of play.
#[derive(Debug, Clone, Copy, PartialEq, Eq, Structural)]
pub struct Totals {
    pub games: u64,
    pub wins: u64,
    pub seconds: i64,
}

/// How many rows at the places were won.
pub open spec fn wins_at(rows: Seq<ReplayRow>, places: Seq<usize>) -> nat
    decreases places.len(),
{
    if places.len() == 0 {
        0
    } else {
        wins_at(rows, places.drop_last()) + (if rows[places.last() as int].user_won == Some(true) {
            1nat
        } else {
            0nat
        })
    }
}

/// How long the games at the places took, together.
pub open spec fn seconds_at(rows: Seq<ReplayRow>, places: Seq<usize>) -> int
    decreases places.len(),
{
    if places.len() == 0 {
        0
    } else {
        seconds_at(rows, places.drop_last()) + rows[places.last() as int].duration_seconds
    }
}

proof fn lemma_totals_bound(rows: Seq<ReplayRow>, places: Seq<usize>)
    ensures
        wins_at(rows, places) <= places.len(),
        -0x8000_0000 * places.len() <= seconds_at(rows, places) <= 0x7fff_ffff * places.len(),
    decreases places.len(),
{
    if places.len() > 0 {
        lemma_totals_bound(rows, places.drop_last());
    }
}

/// The totals of the rows at some places.
pub fn totals_at(rows: &Vec<ReplayRow>, places: &Vec<usize>) -> (t: Totals)
    requires
        forall|k: int| 0 <= k < places@.len() ==> #[trigger] places@[k] < rows@.len(),
        places@.len() <= 0xffff_ffff,
    ensures
        t.games == places@.len(),
        t.wins == wins_at(rows@, places@),
        t.seconds == seconds_at(rows@, places@),
{
    let mut wins: u64 = 0;
    let mut seconds: i64 = 0;
    let mut k: usize = 0;
    assert(places@.take(0) =~= seq![]);
    while k < places.len()
        invariant
            k <= places.len(),
            places@.len() <= 0xffff_ffff,
            forall|j: int| 0 <= j < places@.len() ==> #[trigger] places@[j] < rows@.len(),
            wins == wins_at(rows@, places@.take(k as int)),
            seconds == seconds_at(rows@, places@.take(k as int)),
        decreases places.len() - k,
    {
        proof {
            lemma_totals_bound(rows@, places@.take(k as int));
            assert(places@.take(k + 1).drop_last() =~= places@.take(k as int));
            assert(places@.take(k + 1).last() == places@[k as int]);
        }
        let r = &rows[places[k]];
        match r.user_won {
            Some(won) => {
                if won {
                    wins = wins + 1;
                }
            },
            None => {},
        }
        seconds = seconds + r.duration_seconds as i64;
        k += 1;
    }
    assert(places@.take(k as int) =~= places@);
    Totals { games: places.len() as u64, wins, seconds }
}

/// A record of wins and losses.
pub open spec fn record_words(games: int, wins: int) -> Seq<char> {
    integer_text(wins) + "–"@ + integer_text(
        if games < wins {
            0
        } else {
            games - wins
        },
    )
}

/// A record of wins and losses.
pub fn record_text(games: i64, wins: i64) -> (r: String)
    requires
        i64::MIN <= games - wins <= i64::MAX,
    ensures
        r@ == record_words(games as int, wins as int),
{
    let losses: i64 = if games < wins {
        0
    } else {
        games - wins
    };
    let mut out = String::new();
    push_integer(&mut out, wins);
    assert(out@ =~= integer_text(wins as int));
    out.append("–");
    push_integer(&mut out, losses);
    out
}

/// What is said of the games won or lost in a row: above zero so many were won,
/// below it lost.
pub open spec fn streak_words(current: int) -> Seq<char> {
    if current > 0 {
        integer_text(current) + "-game win streak"@
    } else if current < 0 {
        integer_text(-current) + "-game loss streak"@
    } else {
        "No active streak"@
    }
}

/// What is said of the games won or lost in a row.
pub fn streak_text(current: i64) -> (r: String)
    requires
        current > i64::MIN,
    ensures
        r@ == streak_words(current as int),
{
    let mut out = String::new();
    if current > 0 {
        push_integer(&mut out, current);
        assert(out@ =~= integer_text(current as int));
        out.append("-game win streak");
    } else if current < 0 {
        push_integer(&mut out, -current);
        assert(out@ =~= integer_text(-current));
        out.append("-game loss streak");
    } else {
        return "No active streak".to_owned();
    }
    out
}

/// What is said of the longest rows of games won and lost.
pub fn longest_text(win: i64, loss: i64) -> (r: String)
    ensures
        r@ == "Longest: "@ + integer_text(win as int) + " W · "@ + integer_text(loss as int) + " L"@,
{
    let mut out = "Longest: ".to_owned();
    push_integer(&mut out, win);
    out.append(" W · ");
    push_integer(&mut out, loss);
    out.append(" L");
    out
}

/// What the table of kill moves holds.
#[derive(Debug)]
pub enum KillMoves {
    /// Words in its place.
    Words(&'static str),
    /// The name of each move, and how often it killed.
    Rows(Vec<(String, i64)>),
}

/// The kill moves of a character. Without a character the ids of moves mean
/// nothing, since each numbers its own.
pub fn kill_moves(character: Option<i32>, moves: &Vec<(i32, i64)>, names: &Vec<AttackName>) -> (r:
    KillMoves)
    ensures
        match r {
            KillMoves::Words(w) => if character is None {
                w@ == "Pick a character to see your most common kill moves."@
            } else {
                moves@.len() == 0 && w@ == "No kill moves recorded yet."@
            },
            KillMoves::Rows(v) => character is Some && v@.len() == moves@.len() && v@.len() > 0
                && forall|i: int|
                0 <= i < v@.len() ==> (#[trigger] v@[i]).0@ == attack_text(names@, moves@[i].0)
                    && v@[i].1 == moves@[i].1,
        },
{
    if character.is_none() {
        return KillMoves::Words("Pick a character to see your most common kill moves.");
    }
    if moves.len() == 0 {
        return KillMoves::Words("No kill moves recorded yet.");
    }
    let mut out: Vec<(String, i64)> = Vec::new();
    let mut i: usize = 0;
    while i < moves.len()
        invariant
            i <= moves.len(),
            out@.len() == i,
            forall|j: int|
                0 <= j < i ==> (#[trigger] out@[j]).0@ == attack_text(names@, moves@[j].0)
                    && out@[j].1 == moves@[j].1,
        decreases moves.len() - i,
    {
        out.push((attack_display_name(names, moves[i].0), moves[i].1));
        i += 1;
    }
    KillMoves::Rows(out)
}

// ------------------------------------------------------------------ the viewer

/// What stands below the bar of the viewer.
#[derive(Debug)]
pub enum ViewerBody {
    /// The page of the game.
    Page,
    /// Words in its place.
    Words(String),
}

impl StatsMeleeApp {
    /// What stands below the bar of the viewer.
    pub fn viewer_body(&self) -> (r: ViewerBody)
        ensures
            match self.viewer_state {
                Some(Ok(_)) => r is Page,
                Some(Err(e)) => r matches ViewerBody::Words(s) && s@ == "Couldn't load replay: "@ + e@,
                None => r matches ViewerBody::Words(s) && s@ == "No replay selected."@,
            },
    {
        match &self.viewer_state {
            Some(Ok(_)) => ViewerBody::Page,
            Some(Err(e)) => {
                let mut out = "Couldn't load replay: ".to_owned();
                out.append(e.as_str());
                ViewerBody::Words(out)
            },
            None => ViewerBody::Words("No replay selected.".to_owned()),
        }
    }

    /// How the last launch went.
    pub fn launch_status(&self) -> (r: Option<Status>)
        ensures
            match self.last_slippi_launch {
                None => r is None,
                Some(Ok(_)) => reads(r, true, "✓ Launched in Slippi."@),
                Some(Err(e)) => reads(r, false, "⚠ "@ + e@),
            },
    {
        match &self.last_slippi_launch {
            None => None,
            Some(Ok(_)) => Some(Status { good: true, words: "✓ Launched in Slippi.".to_owned() }),
            Some(Err(e)) => status(false, "⚠ ", e.as_str()),
        }
    }

    /// How the last render went, where none runs.
    pub fn render_result(&self) -> (r: Option<Status>)
        ensures
            match (self.render_status, self.last_render_summary) {
                (Some(_), _) => r is None,
                (None, None) => r is None,
                (None, Some(Ok(p))) => reads(r, true, "✓ Rendered: "@ + p@),
                (None, Some(Err(e))) => reads(r, false, "⚠ "@ + e@),
            },
    {
        if self.render_status.is_some() {
            return None;
        }
        match &self.last_render_summary {
            None => None,
            Some(Ok(p)) => status(true, "✓ Rendered: ", p.as_str()),
            Some(Err(e)) => status(false, "⚠ ", e.as_str()),
        }
    }

    // ------------------------------------------------------------ the settings

    /// The folder of replays, as the settings show it.
    pub fn replay_dir_text(&self) -> (r: &str)
        ensures
            r@ == (match self.config.replay_dir {
                Some(p) => p@,
                None => "(not set)"@,
            }),
    {
        match &self.config.replay_dir {
            Some(p) => p.as_str(),
            None => "(not set)",
        }
    }

    /// The playback binary was picked.
    pub fn pick_slippi_binary(&mut self, path: String)
        requires
            old(self).wf(),
        ensures
            final(self).wf(),
            *final(self) == (StatsMeleeApp {
                config: AppConfig { slippi_playback_command: Some(path), ..old(self).config },
                ..*old(self)
            }),
    {
        self.config.slippi_playback_command = Some(path);
    }

    /// The disc image was picked, or cleared.
    pub fn pick_melee_iso(&mut self, path: Option<String>)
        requires
            old(self).wf(),
        ensures
            final(self).wf(),
            *final(self) == (StatsMeleeApp {
                config: AppConfig { melee_iso_path: path, ..old(self).config },
                ..*old(self)
            }),
    {
        self.config.melee_iso_path = path;
    }

    /// The folder of the launcher was picked, or cleared.
    pub fn pick_launcher(&mut self, path: Option<String>)
        requires
            old(self).wf(),
        ensures
            final(self).wf(),
            *final(self) == (StatsMeleeApp {
                config: AppConfig { slippi_launcher_path: path, ..old(self).config },
                ..*old(self)
            }),
    {
        self.config.slippi_launcher_path = path;
    }

    /// The folder of the launcher, as the settings show it.
    pub fn launcher_text(&self) -> (r: &str)
        ensures
            r@ == (match self.config.slippi_launcher_path {
                Some(p) => p@,
                None => "(not set)"@,
            }),
    {
        match &self.config.slippi_launcher_path {
            Some(p) => p.as_str(),
            None => "(not set)",
        }
    }

    /// The disc image, as the settings show it.
    pub fn melee_iso_text(&self) -> (r: &str)
        ensures
            r@ == (match self.config.melee_iso_path {
                Some(p) => p@,
                None => "(not set)"@,
            }),
    {
        match &self.config.melee_iso_path {
            Some(p) => p.as_str(),
            None => "(not set)",
        }
    }
}

/// The path of the database, as the settings show it.
pub fn db_path_text(path: Result<String, String>) -> (r: String)
    ensures
        r@ == (match path {
            Ok(p) => p@,
            Err(e) => "(unresolved: "@ + e@ + ")"@,
        }),
{
    match path {
        Ok(p) => p,
        Err(e) => {
            let mut out = "(unresolved: ".to_owned();
            out.append(e.as_str());
            out.append(")");
            out
        },
    }
}

// ------------------------------------------------------------------------ laws

/// The places of some ids are those of the rows whose games are among them, in
/// the order of the rows, each once.
pub proof fn places_are_those_of_the_ids(rows: Seq<ReplayRow>, ids: Seq<i32>, n: int)
    requires
        0 <= n <= rows.len(),
        n <= usize::MAX,
    ensures
        forall|i: int|
            0 <= i < n ==> (places_with(rows, ids, n).contains(#[trigger] (i as usize))
                <==> ids.contains(rows[i].game_id)),
        forall|a: int|
            0 <= a < places_with(rows, ids, n).len() ==> (#[trigger] places_with(rows, ids, n)[a])
                < n,
        forall|a: int, b: int|
            0 <= a < b < places_with(rows, ids, n).len() ==> (#[trigger] places_with(
                rows,
                ids,
                n,
            )[a]) < (#[trigger] places_with(rows, ids, n)[b]),
    decreases n,
{
    if n > 0 {
        places_are_those_of_the_ids(rows, ids, n - 1);
        let before = places_with(rows, ids, n - 1);
        let now = places_with(rows, ids, n);
        assert forall|a: int| 0 <= a < before.len() implies now[a] == #[trigger] before[a] by {}
        assert forall|i: int| 0 <= i < n implies (now.contains(#[trigger] (i as usize))
            <==> ids.contains(rows[i].game_id)) by {
            if i < n - 1 && before.contains(i as usize) {
                let k = choose|k: int| 0 <= k < before.len() && before[k] == (i as usize);
                assert(now[k] == (i as usize));
            }
            if i == n - 1 && ids.contains(rows[i].game_id) {
                assert(now[before.len() as int] == (i as usize));
            }
            if now.contains(i as usize) {
                let k = choose|k: int| 0 <= k < now.len() && now[k] == (i as usize);
                if k < before.len() {
                    assert(before[k] < n - 1);
                    assert(before.contains(i as usize));
                }
            }
        }
        assert forall|a: int, b: int| 0 <= a < b < now.len() implies (#[trigger] now[a]) < (
        #[trigger] now[b]) by {
            assert(before[a] < n - 1);
            if b < before.len() {
                assert(before[a] < before[b]);
            }
        }
        assert forall|a: int| 0 <= a < now.len() implies (#[trigger] now[a]) < n by {
            if a < before.len() {
                assert(before[a] < n - 1);
            }
        }
    }
}

/// The totals of some places and some more are those of both together. A place
/// counts one win where its game was won, else none, and its own seconds.
pub proof fn totals_add_up(rows: Seq<ReplayRow>, xs: Seq<usize>, ys: Seq<usize>, place: usize)
    ensures
        wins_at(rows, xs + ys) == wins_at(rows, xs) + wins_at(rows, ys),
        seconds_at(rows, xs + ys) == seconds_at(rows, xs) + seconds_at(rows, ys),
        rows[place as int].user_won == Some(true) ==> wins_at(rows, seq![place]) == 1,
        rows[place as int].user_won != Some(true) ==> wins_at(rows, seq![place]) == 0,
        seconds_at(rows, seq![place]) == rows[place as int].duration_seconds,
        wins_at(rows, seq![]) == 0 && seconds_at(rows, seq![]) == 0,
    decreases ys.len(),
{
    reveal_with_fuel(wins_at, 2);
    reveal_with_fuel(seconds_at, 2);
    assert(seq![place].drop_last() =~= Seq::<usize>::empty());
    assert(seq![place].last() == place);
    if ys.len() > 0 {
        totals_add_up(rows, xs, ys.drop_last(), place);
        assert((xs + ys).drop_last() =~= xs + ys.drop_last());
        assert((xs + ys).last() == ys.last());
    } else {
        assert(xs + ys =~= xs);
    }
}

/// No more games are won than played.
pub proof fn wins_are_games(rows: Seq<ReplayRow>, places: Seq<usize>)
    ensures
        wins_at(rows, places) <= places.len(),
{
    lemma_totals_bound(rows, places);
}

/// A page of statistics asks for a code exactly where none is set, and shows a
/// summary exactly where a code is set and the summary is there.
pub proof fn statistics_need_a_code(app: StatsMeleeApp, ready: bool)
    ensures
        stats_body(app, ready) == StatsBody::SetCode <==> trimmed(app.config.user_player_code@).len()
            == 0,
        stats_body(app, ready) == StatsBody::Summary <==> ready && trimmed(
            app.config.user_player_code@,
        ).len() > 0,
        trimmed(app.config.user_player_code@).len() > 0 && !ready && app.summary_loading
            ==> stats_body(app, ready) == StatsBody::Computing,
        trimmed(app.config.user_player_code@).len() > 0 && !ready && !app.summary_loading ==> (stats_body(
            app,
            ready,
        ) == StatsBody::Nothing <==> app.summary_error is Some) && (stats_body(app, ready)
            == StatsBody::Loading <==> app.summary_error is None),
{
}

/// Clicks on the table change no row, no setting and no filter. A view opens the
/// viewer on that game, and without one the page stays.
pub proof fn clicks_change_no_rows(app: StatsMeleeApp, clicks: TableClicks)
    ensures
        after_clicks(app, clicks).rows == app.rows,
        after_clicks(app, clicks).config == app.config,
        after_clicks(app, clicks).filter == app.filter,
        after_clicks(app, clicks).sort_key == app.sort_key,
        after_clicks(app, clicks).sort_direction == app.sort_direction,
        clicks.view is None ==> after_clicks(app, clicks).page == app.page && after_clicks(
            app,
            clicks,
        ).viewing_game_id == app.viewing_game_id,
        clicks.view is Some ==> after_clicks(app, clicks).page == Page::ReplayViewer && after_clicks(
            app,
            clicks,
        ).viewing_game_id == clicks.view,
{
}

/// After clicks on the table a deletion is asked for exactly where one of them
/// asked for it, or an earlier question was neither waved off nor left.
pub proof fn clicks_ask_before_deleting(app: StatsMeleeApp, clicks: TableClicks)
    ensures
        clicks.arm is Some ==> after_clicks(app, clicks).delete_confirm_game_id == clicks.arm,
        clicks.arm is None && (clicks.cancel || clicks.view is Some) ==> after_clicks(
            app,
            clicks,
        ).delete_confirm_game_id is None,
        clicks.arm is None && !clicks.cancel && clicks.view is None ==> after_clicks(app, clicks) == app,
{
}

/// The losses in a record are the games that were not won.
pub proof fn records_count_every_game(wins: int, losses: int)
    requires
        0 <= losses,
    ensures
        record_words(wins + losses, wins) == integer_text(wins) + "–"@ + integer_text(losses),
{
}

/// Games in a row are told alike whether won or lost, but for the word.
pub proof fn streaks_tell_their_length(n: int)
    requires
        0 < n,
    ensures
        streak_words(n) == integer_text(n) + "-game win streak"@,
        streak_words(-n) == integer_text(n) + "-game loss streak"@,
{
}

/// A pass over the table without a click on a column leaves the order of the
/// rows; with one the rows are sorted by that column.
pub proof fn clicks_on_columns_sort(app: StatsMeleeApp, clicks: TableClicks, mid: StatsMeleeApp)
    requires
        is_resorted(app, clicks, mid),
    ensures
        clicks.sort is None ==> mid == app,
        clicks.sort is Some ==> mid.sort_key == clicks.sort->0,
        clicks.sort == Some(app.sort_key) ==> mid.sort_direction != app.sort_direction,
        mid.page == app.page && mid.filter == app.filter && mid.config == app.config,
        mid.delete_confirm_game_id == app.delete_confirm_game_id,
{
}

} // verus!
