//! The rows of the replay library.
use vstd::prelude::*;
use vstd::string::StringSliceAdditionalSpecFns;
use vstd::utf8::{decode_utf8, encode_utf8, is_char_boundary};
use std::collections::HashMap;
use crate::dates::{padded, push_padded};
use crate::gamedata::{character_name, character_text, stage_name, stage_text};
use crate::models::{Game, GamePlayer};
use crate::order::{
    distinct_places, first_of, lemma_order_is_distinct, pick, picked, stable_order, Ranking,
};
use crate::text::{
    decimal, decimal_text, lemma_precedes_irreflexive, lemma_precedes_total,
    lemma_precedes_transitive, less, opt_text, precedes, same,
};

verus! {

broadcast use {
    vstd::string::group_string_axioms,
    vstd::std_specs::hash::group_hash_axioms,
    vstd::utf8::encode_utf8_decode_utf8,
};

/// One place of a game.
#[derive(Debug, Clone)]
pub struct PlayerSlot {
    /// The player's connect code.
    pub code: String,
    pub character_id: i32,
}

/// The name of a table entry, or `Unknown`.
pub open spec fn known_name(name: Option<Seq<char>>) -> Seq<char> {
    match name {
        Some(s) => s,
        None => "Unknown"@,
    }
}

impl PlayerSlot {
    /// The name of the character.
    pub fn character_name(&self) -> (r: &'static str)
        ensures
            r@ == known_name(character_text(self.character_id as int)),
    {
        match character_name(self.character_id) {
            Some(s) => s,
            None => "Unknown",
        }
    }
}

/// One row of the library.
#[derive(Debug, Clone)]
pub struct ReplayRow {
    pub game_id: i32,
    /// By placement, the winner first.
    pub slots: [Option<PlayerSlot>; 4],
    pub stage_id: i32,
    /// How long the game took, without the time before it started.
    pub duration_seconds: i32,
    /// Whether the user placed first. `None` where the user did not play, or
    /// no user is set.
    pub user_won: Option<bool>,
    /// When the row was written, as `YYYY-MM-DD HH:MM:SS`.
    pub ingested_at: String,
    /// When the game was played, where that is known.
    pub played_at: Option<String>,
}

/// Whether text can be cut after ten bytes, where it has ten.
pub open spec fn sliceable(s: Seq<char>) -> bool {
    encode_utf8(s).len() >= 10 ==> is_char_boundary(encode_utf8(s), 10)
}

/// The first ten bytes of text, as text.
pub open spec fn first_ten(s: Seq<char>) -> Option<Seq<char>> {
    if encode_utf8(s).len() >= 10 {
        Some(decode_utf8(encode_utf8(s).subrange(0, 10)))
    } else {
        None
    }
}

/// A timestamp in ASCII can be cut, and its date is its first ten characters.
pub proof fn timestamps_slice_to_dates(s: Seq<char>)
    requires
        vstd::utf8::is_ascii_chars(s),
        s.len() >= 10,
    ensures
        sliceable(s),
        first_ten(s) == Some(s.take(10)),
{
    vstd::utf8::is_ascii_chars_encode_utf8(s);
    vstd::utf8::is_ascii_chars_encode_utf8(s.take(10));
    assert(encode_utf8(s).subrange(0, 10) =~= encode_utf8(s.take(10)));
    vstd::utf8::encode_utf8_valid_utf8(s);
    vstd::utf8::is_char_boundary_start_end_of_seq(encode_utf8(s));
    if s.len() > 10 {
        vstd::utf8::is_char_boundary_iff_not_is_continuation_byte(encode_utf8(s), 10);
    }
}

fn can_slice(s: &str) -> (r: bool)
    ensures
        r == sliceable(s@),
{
    s.as_bytes().len() < 10 || s.is_char_boundary(10)
}

fn date_part(s: &str) -> (r: Option<&str>)
    requires
        sliceable(s@),
    ensures
        match r {
            Some(d) => first_ten(s@) == Some(d@),
            None => first_ten(s@) is None,
        },
{
    if s.as_bytes().len() >= 10 {
        let (d, _rest) = s.split_at(10);
        assert(d@ == decode_utf8(d.spec_bytes()));
        Some(d)
    } else {
        None
    }
}

/// A duration as `M:SS`.
pub open spec fn duration_text(seconds: int) -> Seq<char> {
    let total = if seconds < 0 {
        0
    } else {
        seconds
    };
    decimal_text((total / 60) as nat) + ":"@ + padded(total % 60, 2)
}

/// A duration as `M:SS`.
pub fn duration_as_text(seconds: i32) -> (r: String)
    ensures
        r@ == duration_text(seconds as int),
{
    let total: i32 = if seconds < 0 {
        0
    } else {
        seconds
    };
    let mut out = decimal((total / 60) as u128);
    out.append(":");
    push_padded(&mut out, (total % 60) as i64, 2);
    out
}

impl ReplayRow {
    /// The timestamp of play can be cut to a date, where there is one.
    pub open spec fn played_cuts(&self) -> bool {
        self.played_at matches Some(s) ==> sliceable(s@)
    }

    /// The timestamp of writing can be cut to a date.
    pub open spec fn added_cuts(&self) -> bool {
        sliceable(self.ingested_at@)
    }

    /// The date on which the game was played, where that is known.
    pub open spec fn played_text(&self) -> Option<Seq<char>> {
        match self.played_at {
            Some(s) => first_ten(s@),
            None => None,
        }
    }

    /// The name of the stage.
    pub fn stage_name(&self) -> (r: &'static str)
        ensures
            r@ == known_name(stage_text(self.stage_id as int)),
    {
        match stage_name(self.stage_id) {
            Some(s) => s,
            None => "Unknown",
        }
    }

    /// The duration as `M:SS`.
    pub fn duration_display(&self) -> (r: String)
        ensures
            r@ == duration_text(self.duration_seconds as int),
    {
        duration_as_text(self.duration_seconds)
    }

    /// Whether the timestamp of play can be cut to a date.
    pub fn can_cut_played(&self) -> (r: bool)
        ensures
            r == self.played_cuts(),
    {
        match &self.played_at {
            Some(s) => can_slice(s.as_str()),
            None => true,
        }
    }

    /// Whether the timestamp of writing can be cut to a date.
    pub fn can_cut_added(&self) -> (r: bool)
        ensures
            r == self.added_cuts(),
    {
        can_slice(self.ingested_at.as_str())
    }

    /// The date on which the game was played, where that is known.
    pub fn played_date(&self) -> (r: Option<&str>)
        requires
            self.played_cuts(),
        ensures
            match r {
                Some(d) => self.played_text() == Some(d@),
                None => self.played_text() is None,
            },
    {
        match &self.played_at {
            Some(s) => date_part(s.as_str()),
            None => None,
        }
    }

    /// The date on which the row was written.
    pub fn ingested_date(&self) -> (r: Option<&str>)
        requires
            self.added_cuts(),
        ensures
            match r {
                Some(d) => first_ten(self.ingested_at@) == Some(d@),
                None => first_ten(self.ingested_at@) is None,
            },
    {
        date_part(self.ingested_at.as_str())
    }
}

// --------------------------------------------------------------------- loading

/// The player of that id. Of two with one id the later counts.
pub open spec fn player_of_id(players: Seq<GamePlayer>, id: i32) -> Option<GamePlayer>
    decreases players.len(),
{
    if players.len() == 0 {
        None
    } else if players.last().id == id {
        Some(players.last())
    } else {
        player_of_id(players.drop_last(), id)
    }
}

/// The code and the character in a slot.
pub open spec fn slot_facts(players: Seq<GamePlayer>, id: Option<i32>) -> Option<(Seq<char>, i32)> {
    match id {
        Some(id) => match player_of_id(players, id) {
            Some(p) => Some((p.code@, p.character)),
            None => None,
        },
        None => None,
    }
}

pub open spec fn slot_view(s: Option<PlayerSlot>) -> Option<(Seq<char>, i32)> {
    match s {
        Some(s) => Some((s.code@, s.character_id)),
        None => None,
    }
}

pub open spec fn slot_has(s: Option<(Seq<char>, i32)>, code: Seq<char>) -> bool {
    s matches Some((c, _)) && c == code
}

/// The user whose games are wanted; an empty code stands for none.
pub open spec fn user_text(code: Option<&str>) -> Option<Seq<char>> {
    match code {
        Some(c) => if c@.len() > 0 {
            Some(c@)
        } else {
            None
        },
        None => None,
    }
}

/// Whether a game is shown: the user played in it, or no user is set.
pub open spec fn is_shown(players: Seq<GamePlayer>, user: Option<Seq<char>>, g: Game) -> bool {
    user matches Some(code) ==> {
        ||| slot_has(slot_facts(players, g.first), code)
        ||| slot_has(slot_facts(players, g.second), code)
        ||| slot_has(slot_facts(players, g.third), code)
        ||| slot_has(slot_facts(players, g.fourth), code)
    }
}

/// Whether `row` is the row of a game.
pub open spec fn is_row_of(
    row: ReplayRow,
    g: Game,
    players: Seq<GamePlayer>,
    user: Option<Seq<char>>,
) -> bool {
    &&& row.game_id == g.id
    &&& slot_view(row.slots@[0]) == slot_facts(players, g.first)
    &&& slot_view(row.slots@[1]) == slot_facts(players, g.second)
    &&& slot_view(row.slots@[2]) == slot_facts(players, g.third)
    &&& slot_view(row.slots@[3]) == slot_facts(players, g.fourth)
    &&& row.stage_id == g.stage
    &&& row.duration_seconds == g.time
    &&& row.user_won == (match user {
        Some(code) => Some(slot_has(slot_facts(players, g.first), code)),
        None => None,
    })
    &&& row.ingested_at@ == g.ingested_at@
    &&& opt_text(row.played_at) == opt_text(g.started_at)
}

spec fn indexes(map: Map<i32, usize>, players: Seq<GamePlayer>, n: int) -> bool {
    forall|id: i32|
        match player_of_id(players.take(n), id) {
            Some(p) => #[trigger] map.contains_key(id) && map[id] < n && players[map[id] as int] == p,
            None => !map.contains_key(id),
        }
}

fn index_players(players: &Vec<GamePlayer>) -> (map: HashMap<i32, usize>)
    ensures
        indexes(map@, players@, players@.len() as int),
{
    let mut map: HashMap<i32, usize> = HashMap::new();
    let mut i: usize = 0;
    while i < players.len()
        invariant
            i <= players.len(),
            indexes(map@, players@, i as int),
        decreases players.len() - i,
    {
        let ghost before = map@;
        map.insert(players[i].id, i);
        proof {
            assert(players@.take(i + 1).drop_last() =~= players@.take(i as int));
            assert forall|id: i32|
                match player_of_id(players@.take(i + 1), id) {
                    Some(p) => #[trigger] map@.contains_key(id) && map@[id] < i + 1
                        && players@[map@[id] as int] == p,
                    None => !map@.contains_key(id),
                } by {
                assert(before.contains_key(id) == before.contains_key(id));
            }
        }
        i += 1;
    }
    map
}

fn slot_at(players: &Vec<GamePlayer>, map: &HashMap<i32, usize>, id: Option<i32>) -> (r: Option<
    PlayerSlot,
>)
    requires
        indexes(map@, players@, players@.len() as int),
    ensures
        slot_view(r) == slot_facts(players@, id),
{
    assert(players@.take(players@.len() as int) =~= players@);
    match id {
        Some(id) => match map.get(&id) {
            Some(i) => {
                assert(map@.contains_key(id));
                let p = &players[*i];
                Some(PlayerSlot { code: p.code.clone(), character_id: p.character })
            },
            None => {
                assert(!map@.contains_key(id));
                None
            },
        },
        None => None,
    }
}

/// Whether a slot is the user's.
pub fn slot_is(s: &Option<PlayerSlot>, code: &str) -> (r: bool)
    ensures
        r == slot_has(slot_view(*s), code@),
{
    match s {
        Some(s) => same(s.code.as_str(), code),
        None => false,
    }
}

/// The rows of the library: one for each game that is shown, in the order of
/// the games.
pub fn load_rows(games: Vec<Game>, players: &Vec<GamePlayer>, user_player_code: Option<&str>) -> (r:
    Vec<ReplayRow>)
    ensures
        ({
            let user = user_text(user_player_code);
            let shown = games@.filter(|g: Game| is_shown(players@, user, g));
            &&& r@.len() == shown.len()
            &&& forall|i: int|
                0 <= i < r@.len() ==> is_row_of(#[trigger] r@[i], shown[i], players@, user)
        }),
{
    let ghost user = user_text(user_player_code);
    let ghost all = games@;
    let ghost keeps = |g: Game| is_shown(players@, user, g);
    let code: Option<&str> = match user_player_code {
        Some(c) => if c.is_empty() {
            None
        } else {
            Some(c)
        },
        None => None,
    };
    let map = index_players(players);
    let mut rows: Vec<ReplayRow> = Vec::new();
    assert(all.take(0).filter(keeps) =~= Seq::<Game>::empty()) by {
        reveal(Seq::filter);
    }
    for g in it: games
        invariant
            it.seq() == all,
            keeps == (|g: Game| is_shown(players@, user, g)),
            indexes(map@, players@, players@.len() as int),
            user == (match code {
                Some(c) => Some(c@),
                None => None,
            }),
            rows@.len() == all.take(it.index()).filter(keeps).len(),
            forall|i: int|
                0 <= i < rows@.len() ==> is_row_of(
                    #[trigger] rows@[i],
                    all.take(it.index()).filter(keeps)[i],
                    players@,
                    user,
                ),
    {
        proof {
            reveal(Seq::filter);
            assert(all.take(it.index() + 1).drop_last() =~= all.take(it.index()));
        }
        let slots: [Option<PlayerSlot>; 4] = [
            slot_at(players, &map, g.first),
            slot_at(players, &map, g.second),
            slot_at(players, &map, g.third),
            slot_at(players, &map, g.fourth),
        ];
        let (present, user_won): (bool, Option<bool>) = match code {
            Some(c) => {
                let won: bool = slot_is(&slots[0], c);
                (won || slot_is(&slots[1], c) || slot_is(&slots[2], c) || slot_is(&slots[3], c), Some(won))
            },
            None => (true, None),
        };
        if present {
            let ghost before = rows@;
            rows.push(
                ReplayRow {
                    game_id: g.id,
                    slots,
                    stage_id: g.stage,
                    duration_seconds: g.time,
                    user_won,
                    ingested_at: g.ingested_at,
                    played_at: g.started_at,
                },
            );
        }
    }
    assert(all.take(all.len() as int) =~= all);
    rows
}

// --------------------------------------------------------------------- sorting

/// What the library is sorted by.
#[derive(Debug, Clone, Copy, PartialEq, Eq, Structural)]
pub enum SortKey {
    IngestedAt,
    PlayedAt,
    GameId,
    Stage,
    Duration,
    Outcome,
}

#[derive(Debug, Clone, Copy, PartialEq, Eq, Structural)]
pub enum SortDirection {
    Asc,
    Desc,
}

impl SortKey {
    /// The direction of a first click: newest and longest first, names and
    /// outcomes from the front.
    pub open spec fn first_direction(self) -> SortDirection {
        match self {
            SortKey::Stage | SortKey::Outcome => SortDirection::Asc,
            _ => SortDirection::Desc,
        }
    }

    /// The direction of a first click.
    pub fn default_direction(self) -> (r: SortDirection)
        ensures
            r == self.first_direction(),
    {
        match self {
            SortKey::IngestedAt | SortKey::PlayedAt | SortKey::GameId | SortKey::Duration =>
                SortDirection::Desc,
            SortKey::Stage | SortKey::Outcome => SortDirection::Asc,
        }
    }
}

/// `up` in ascending order, `down` in descending order.
pub open spec fn directed(dir: SortDirection, up: bool, down: bool) -> bool {
    match dir {
        SortDirection::Asc => up,
        SortDirection::Desc => down,
    }
}

pub open spec fn stage_of(r: ReplayRow) -> Seq<char> {
    known_name(stage_text(r.stage_id as int))
}

/// Whether row `a` must come before row `b`. A row without an outcome, or
/// without a date of play, comes last whatever the direction.
pub open spec fn row_before(a: ReplayRow, b: ReplayRow, key: SortKey, dir: SortDirection) -> bool {
    match key {
        SortKey::Outcome => match (a.user_won, b.user_won) {
            (Some(x), Some(y)) => directed(dir, x && !y, y && !x),
            (Some(_), None) => true,
            _ => false,
        },
        SortKey::PlayedAt => match (a.played_at, b.played_at) {
            (Some(x), Some(y)) => directed(dir, precedes(x@, y@), precedes(y@, x@)),
            (Some(_), None) => true,
            _ => false,
        },
        SortKey::IngestedAt => directed(
            dir,
            precedes(a.ingested_at@, b.ingested_at@),
            precedes(b.ingested_at@, a.ingested_at@),
        ),
        SortKey::GameId => directed(dir, a.game_id < b.game_id, b.game_id < a.game_id),
        SortKey::Stage => directed(
            dir,
            precedes(stage_of(a), stage_of(b)),
            precedes(stage_of(b), stage_of(a)),
        ),
        SortKey::Duration => directed(
            dir,
            a.duration_seconds < b.duration_seconds,
            b.duration_seconds < a.duration_seconds,
        ),
    }
}

fn text_before(a: &str, b: &str, dir: SortDirection) -> (r: bool)
    ensures
        r == directed(dir, precedes(a@, b@), precedes(b@, a@)),
{
    match dir {
        SortDirection::Asc => less(a, b),
        SortDirection::Desc => less(b, a),
    }
}

fn number_before(a: i32, b: i32, dir: SortDirection) -> (r: bool)
    ensures
        r == directed(dir, a < b, b < a),
{
    match dir {
        SortDirection::Asc => a < b,
        SortDirection::Desc => b < a,
    }
}

proof fn lemma_texts(a: Seq<char>, b: Seq<char>, c: Seq<char>)
    ensures
        !precedes(a, a),
        precedes(a, b) && precedes(b, c) ==> precedes(a, c),
        precedes(a, c) ==> precedes(a, b) || precedes(b, c),
{
    lemma_precedes_irreflexive(a);
    if precedes(a, b) && precedes(b, c) {
        lemma_precedes_transitive(a, b, c);
    }
    if precedes(a, c) && !precedes(a, b) {
        lemma_precedes_total(a, b);
        if precedes(b, a) {
            lemma_precedes_transitive(b, a, c);
        }
    }
}

proof fn lemma_row_before(a: ReplayRow, b: ReplayRow, c: ReplayRow, key: SortKey, dir: SortDirection)
    ensures
        !row_before(a, a, key, dir),
        row_before(a, b, key, dir) && row_before(b, c, key, dir) ==> row_before(a, c, key, dir),
        row_before(a, c, key, dir) ==> row_before(a, b, key, dir) || row_before(b, c, key, dir),
{
    lemma_texts(a.ingested_at@, b.ingested_at@, c.ingested_at@);
    lemma_texts(c.ingested_at@, b.ingested_at@, a.ingested_at@);
    lemma_texts(stage_of(a), stage_of(b), stage_of(c));
    lemma_texts(stage_of(c), stage_of(b), stage_of(a));
    if a.played_at is Some {
        lemma_precedes_irreflexive(a.played_at->0@);
        if b.played_at is Some && c.played_at is Some {
            lemma_texts(a.played_at->0@, b.played_at->0@, c.played_at->0@);
            lemma_texts(c.played_at->0@, b.played_at->0@, a.played_at->0@);
        }
    }
}

/// Rows under the order of a sort.
pub struct RowOrder<'a> {
    pub rows: &'a Vec<ReplayRow>,
    pub key: SortKey,
    pub dir: SortDirection,
}

impl<'a> Ranking for RowOrder<'a> {
    open spec fn count(&self) -> nat {
        self.rows@.len()
    }

    open spec fn lt(&self, i: int, j: int) -> bool {
        row_before(self.rows@[i], self.rows@[j], self.key, self.dir)
    }

    proof fn lt_is_weak_order(&self) {
        assert forall|i: int| 0 <= i < self.count() implies !#[trigger] self.lt(i, i) by {
            lemma_row_before(self.rows@[i], self.rows@[i], self.rows@[i], self.key, self.dir);
        }
        assert forall|i: int, j: int, k: int|
            0 <= i < self.count() && 0 <= j < self.count() && 0 <= k < self.count()
                && #[trigger] self.lt(i, j) && #[trigger] self.lt(j, k) implies self.lt(i, k) by {
            lemma_row_before(self.rows@[i], self.rows@[j], self.rows@[k], self.key, self.dir);
        }
        assert forall|i: int, j: int, k: int|
            0 <= i < self.count() && 0 <= j < self.count() && 0 <= k < self.count()
                && #[trigger] self.lt(i, k) implies #[trigger] self.lt(i, j) || self.lt(j, k) by {
            lemma_row_before(self.rows@[i], self.rows@[j], self.rows@[k], self.key, self.dir);
        }
    }

    fn before(&self, i: usize, j: usize) -> (r: bool) {
        let a = &self.rows[i];
        let b = &self.rows[j];
        match self.key {
            SortKey::Outcome => match (a.user_won, b.user_won) {
                (Some(x), Some(y)) => match self.dir {
                    SortDirection::Asc => x && !y,
                    SortDirection::Desc => y && !x,
                },
                (Some(_), None) => true,
                _ => false,
            },
            SortKey::PlayedAt => match (&a.played_at, &b.played_at) {
                (Some(x), Some(y)) => text_before(x.as_str(), y.as_str(), self.dir),
                (Some(_), None) => true,
                _ => false,
            },
            SortKey::IngestedAt => text_before(
                a.ingested_at.as_str(),
                b.ingested_at.as_str(),
                self.dir,
            ),
            SortKey::GameId => number_before(a.game_id, b.game_id, self.dir),
            SortKey::Stage => text_before(a.stage_name(), b.stage_name(), self.dir),
            SortKey::Duration => number_before(a.duration_seconds, b.duration_seconds, self.dir),
        }
    }
}

/// Whether place `i` of some rows comes before place `j` after a stable sort.
pub open spec fn row_first(rows: Seq<ReplayRow>, key: SortKey, dir: SortDirection, i: int, j: int) -> bool {
    row_before(rows[i], rows[j], key, dir) || (!row_before(rows[j], rows[i], key, dir) && i < j)
}

/// Whether `order` lists the places of some rows, each once, as a stable sort
/// leaves them.
pub open spec fn is_row_order(
    rows: Seq<ReplayRow>,
    key: SortKey,
    dir: SortDirection,
    order: Seq<usize>,
) -> bool {
    &&& order.len() == rows.len()
    &&& forall|a: int| 0 <= a < order.len() ==> #[trigger] order[a] < rows.len()
    &&& forall|a: int, b: int|
        0 <= a < b < order.len() ==> row_first(
            rows,
            key,
            dir,
            #[trigger] order[a] as int,
            #[trigger] order[b] as int,
        )
    &&& forall|i: int| 0 <= i < rows.len() ==> order.contains(#[trigger] (i as usize))
}

/// Whether `new` is `rows` after a stable sort.
pub open spec fn is_sorted_from(
    new: Seq<ReplayRow>,
    rows: Seq<ReplayRow>,
    key: SortKey,
    dir: SortDirection,
) -> bool {
    exists|order: Seq<usize>|
        #[trigger] is_row_order(rows, key, dir, order) && new == picked(rows, order)
}

/// Sorts rows. Rows that may stand either way keep their order.
pub fn sort_rows(rows: &mut Vec<ReplayRow>, key: SortKey, dir: SortDirection)
    ensures
        is_sorted_from(final(rows)@, old(rows)@, key, dir),
{
    let ghost before = rows@;
    let n: usize = rows.len();
    let order = {
        let ranking = RowOrder { rows: &*rows, key, dir };
        let order = stable_order(&ranking, n);
        proof {
            lemma_order_is_distinct(ranking, order@, n as int);
            assert forall|a: int, b: int| 0 <= a < b < order@.len() implies row_first(
                before,
                key,
                dir,
                #[trigger] order@[a] as int,
                #[trigger] order@[b] as int,
            ) by {
                assert(first_of(ranking, order@[a] as int, order@[b] as int));
            }
        }
        order
    };
    let mut all: Vec<ReplayRow> = Vec::new();
    std::mem::swap(rows, &mut all);
    *rows = pick(all, &order);
    assert(is_row_order(before, key, dir, order@));
}

/// After a sort no row stands before one that must come before it.
pub proof fn sorted_rows_are_in_order(
    new: Seq<ReplayRow>,
    rows: Seq<ReplayRow>,
    key: SortKey,
    dir: SortDirection,
)
    requires
        is_sorted_from(new, rows, key, dir),
    ensures
        new.len() == rows.len(),
        forall|i: int, j: int|
            0 <= i < j < new.len() ==> !row_before(#[trigger] new[j], #[trigger] new[i], key, dir),
{
    let order = choose|order: Seq<usize>|
        #[trigger] is_row_order(rows, key, dir, order) && new == picked(rows, order);
    assert forall|i: int, j: int| 0 <= i < j < new.len() implies !row_before(
        #[trigger] new[j],
        #[trigger] new[i],
        key,
        dir,
    ) by {
        assert(row_first(rows, key, dir, order[i] as int, order[j] as int));
        lemma_row_before(new[i], new[j], new[i], key, dir);
    }
}

/// Sorting by outcome leaves the rows without one last, in either direction.
pub proof fn unknown_outcomes_come_last(new: Seq<ReplayRow>, rows: Seq<ReplayRow>, dir: SortDirection)
    requires
        is_sorted_from(new, rows, SortKey::Outcome, dir),
    ensures
        forall|i: int, j: int|
            0 <= i < j < new.len() && (#[trigger] new[i]).user_won is None ==> (
            #[trigger] new[j]).user_won is None,
{
    sorted_rows_are_in_order(new, rows, SortKey::Outcome, dir);
    assert forall|i: int, j: int|
        0 <= i < j < new.len() && (#[trigger] new[i]).user_won is None implies (
    #[trigger] new[j]).user_won is None by {
        assert(!row_before(new[j], new[i], SortKey::Outcome, dir));
    }
}

/// Sorting by date of play leaves the rows without one last, in either
/// direction.
pub proof fn undated_rows_come_last(new: Seq<ReplayRow>, rows: Seq<ReplayRow>, dir: SortDirection)
    requires
        is_sorted_from(new, rows, SortKey::PlayedAt, dir),
    ensures
        forall|i: int, j: int|
            0 <= i < j < new.len() && (#[trigger] new[i]).played_at is None ==> (
            #[trigger] new[j]).played_at is None,
{
    sorted_rows_are_in_order(new, rows, SortKey::PlayedAt, dir);
    assert forall|i: int, j: int|
        0 <= i < j < new.len() && (#[trigger] new[i]).played_at is None implies (
    #[trigger] new[j]).played_at is None by {
        assert(!row_before(new[j], new[i], SortKey::PlayedAt, dir));
    }
}

/// A second sort keeps the first one's order among the rows that it ties.
pub proof fn second_sort_refines_the_first(
    new: Seq<ReplayRow>,
    mid: Seq<ReplayRow>,
    rows: Seq<ReplayRow>,
    key1: SortKey,
    dir1: SortDirection,
    key2: SortKey,
    dir2: SortDirection,
)
    requires
        is_sorted_from(mid, rows, key1, dir1),
        is_sorted_from(new, mid, key2, dir2),
    ensures
        forall|i: int, j: int|
            0 <= i < j < new.len() && !row_before(#[trigger] new[i], #[trigger] new[j], key2, dir2)
                ==> !row_before(new[j], new[i], key1, dir1),
{
    sorted_rows_are_in_order(mid, rows, key1, dir1);
    let order = choose|order: Seq<usize>|
        #[trigger] is_row_order(mid, key2, dir2, order) && new == picked(mid, order);
    assert forall|i: int, j: int|
        0 <= i < j < new.len() && !row_before(
            #[trigger] new[i],
            #[trigger] new[j],
            key2,
            dir2,
        ) implies !row_before(new[j], new[i], key1, dir1) by {
        assert(row_first(mid, key2, dir2, order[i] as int, order[j] as int));
        assert(new[i] == mid[order[i] as int] && new[j] == mid[order[j] as int]);
    }
}

/// Whether place `i` of the players is the one that a slot names: the last with
/// the slot's id.
pub open spec fn sits(players: Seq<GamePlayer>, id: Option<i32>, i: int) -> bool {
    &&& id is Some
    &&& 0 <= i < players.len()
    &&& players[i].id == id->0
    &&& forall|j: int| i < j < players.len() ==> (#[trigger] players[j]).id != id->0
}

/// A slot names the last player with its id; an empty slot, and one whose id
/// nobody has, name nobody.
pub proof fn slots_name_the_last_player(players: Seq<GamePlayer>, id: Option<i32>)
    ensures
        forall|i: int| #[trigger]
            sits(players, id, i) ==> player_of_id(players, id->0) == Some(players[i]) && slot_facts(
                players,
                id,
            ) == Some((players[i].code@, players[i].character)),
        slot_facts(players, id) is Some ==> exists|i: int| sits(players, id, i),
        id is Some && player_of_id(players, id->0) is Some ==> exists|i: int| sits(players, id, i),
    decreases players.len(),
{
    if players.len() > 0 && id is Some {
        let n = players.len() - 1;
        let front = players.drop_last();
        slots_name_the_last_player(front, id);
        if players.last().id == id->0 {
            assert(sits(players, id, n));
            assert forall|i: int| #[trigger] sits(players, id, i) implies i == n by {
                if i < n {
                    assert(players[n].id != id->0);
                }
            }
        } else {
            assert forall|i: int| #[trigger] sits(players, id, i) implies sits(front, id, i)
                && front[i] == players[i] by {
                assert(i != n);
                assert forall|j: int| i < j < front.len() implies (#[trigger] front[j]).id != id->0 by {
                    assert(front[j] == players[j]);
                }
            }
            assert forall|i: int| #[trigger] sits(front, id, i) implies sits(players, id, i) by {
                assert forall|j: int| i < j < players.len() implies (#[trigger] players[j]).id
                    != id->0 by {
                    if j < n {
                        assert(front[j] == players[j]);
                    }
                }
                assert(front[i] == players[i]);
            }
        }
    }
}

/// The row of a shown game holds the user in some slot, and the user won
/// exactly where that slot is the first.
pub proof fn shown_games_hold_the_user(
    row: ReplayRow,
    g: Game,
    players: Seq<GamePlayer>,
    code: Seq<char>,
)
    requires
        is_shown(players, Some(code), g),
        is_row_of(row, g, players, Some(code)),
    ensures
        exists|k: int|
            0 <= k < 4 && (#[trigger] row.slots@[k] matches Some(s) && s.code@ == code),
        row.user_won == Some(row.slots@[0] matches Some(s) && s.code@ == code),
        row.game_id == g.id,
        row.stage_id == g.stage,
        row.duration_seconds == g.time,
{
    if slot_has(slot_facts(players, g.first), code) {
        assert(row.slots@[0] matches Some(s) && s.code@ == code);
    } else if slot_has(slot_facts(players, g.second), code) {
        assert(row.slots@[1] matches Some(s) && s.code@ == code);
    } else if slot_has(slot_facts(players, g.third), code) {
        assert(row.slots@[2] matches Some(s) && s.code@ == code);
    } else {
        assert(row.slots@[3] matches Some(s) && s.code@ == code);
    }
}

/// A game is left out only where nobody in it has the user's code, and without
/// a user none is.
pub proof fn games_of_others_are_left_out(
    row: ReplayRow,
    g: Game,
    players: Seq<GamePlayer>,
    user: Option<Seq<char>>,
)
    requires
        is_row_of(row, g, players, user),
    ensures
        user is None ==> is_shown(players, user, g) && row.user_won is None,
        user matches Some(code) ==> (!is_shown(players, user, g) <==> forall|k: int|
            0 <= k < 4 ==> !(#[trigger] row.slots@[k] matches Some(s) && s.code@ == code)),
{
    if let Some(code) = user {
        assert forall|k: int| 0 <= k < 4 && !is_shown(players, user, g) implies !(
        #[trigger] row.slots@[k] matches Some(s) && s.code@ == code) by {}
        if is_shown(players, user, g) {
            shown_games_hold_the_user(row, g, players, code);
        }
    }
}

/// The four slots of a row are those of its game, each in its place.
pub proof fn rows_keep_their_slots(
    row: ReplayRow,
    g: Game,
    players: Seq<GamePlayer>,
    user: Option<Seq<char>>,
    k: int,
    i: int,
)
    requires
        is_row_of(row, g, players, user),
        0 <= k < 4,
        sits(players, [g.first, g.second, g.third, g.fourth]@[k], i),
    ensures
        row.slots@[k] matches Some(s) && s.code@ == players[i].code@ && s.character_id
            == players[i].character,
{
    slots_name_the_last_player(players, [g.first, g.second, g.third, g.fourth]@[k]);
    assert(slot_view(row.slots@[k]) == slot_facts(
        players,
        [g.first, g.second, g.third, g.fourth]@[k],
    ));
}

/// Whether two rows show the same in a column.
pub open spec fn ties(a: ReplayRow, b: ReplayRow, key: SortKey) -> bool {
    match key {
        SortKey::GameId => a.game_id == b.game_id,
        SortKey::Duration => a.duration_seconds == b.duration_seconds,
        SortKey::Stage => known_name(stage_text(a.stage_id as int)) == known_name(
            stage_text(b.stage_id as int),
        ),
        SortKey::IngestedAt => a.ingested_at@ == b.ingested_at@,
        SortKey::PlayedAt => opt_text(a.played_at) == opt_text(b.played_at),
        SortKey::Outcome => a.user_won == b.user_won,
    }
}

/// Whether both rows have the value that a column shows.
pub open spec fn both_known(a: ReplayRow, b: ReplayRow, key: SortKey) -> bool {
    &&& key == SortKey::Outcome ==> a.user_won is Some && b.user_won is Some
    &&& key == SortKey::PlayedAt ==> a.played_at is Some && b.played_at is Some
}

/// Descending is the reverse of ascending, in every column: of two rows that
/// have the value sorted by, the one that must come first in one direction must
/// come last in the other, and rows that show different values always have an
/// order.
pub proof fn descending_reverses_ascending(a: ReplayRow, b: ReplayRow, key: SortKey)
    requires
        both_known(a, b, key),
    ensures
        row_before(a, b, key, SortDirection::Desc) == row_before(b, a, key, SortDirection::Asc),
        ties(a, b, key) == (!row_before(a, b, key, SortDirection::Asc) && !row_before(
            b,
            a,
            key,
            SortDirection::Asc,
        )),
        ties(a, b, key) == (!row_before(a, b, key, SortDirection::Desc) && !row_before(
            b,
            a,
            key,
            SortDirection::Desc,
        )),
{
    lemma_precedes_total(a.ingested_at@, b.ingested_at@);
    lemma_precedes_irreflexive(a.ingested_at@);
    lemma_precedes_total(stage_of(a), stage_of(b));
    lemma_precedes_irreflexive(stage_of(a));
    if key == SortKey::PlayedAt {
        lemma_precedes_total(a.played_at->0@, b.played_at->0@);
        lemma_precedes_irreflexive(a.played_at->0@);
    }
}

/// After a sort by id, the ids run up or down.
pub proof fn ids_are_sorted(new: Seq<ReplayRow>, rows: Seq<ReplayRow>, dir: SortDirection)
    requires
        is_sorted_from(new, rows, SortKey::GameId, dir),
    ensures
        forall|i: int, j: int|
            0 <= i < j < new.len() ==> if dir == SortDirection::Asc {
                (#[trigger] new[i]).game_id <= (#[trigger] new[j]).game_id
            } else {
                new[i].game_id >= new[j].game_id
            },
{
    sorted_rows_are_in_order(new, rows, SortKey::GameId, dir);
    assert forall|i: int, j: int| 0 <= i < j < new.len() implies if dir == SortDirection::Asc {
        (#[trigger] new[i]).game_id <= (#[trigger] new[j]).game_id
    } else {
        new[i].game_id >= new[j].game_id
    } by {
        assert(!row_before(new[j], new[i], SortKey::GameId, dir));
    }
}

/// After a sort by duration, the durations run up or down.
pub proof fn durations_are_sorted(new: Seq<ReplayRow>, rows: Seq<ReplayRow>, dir: SortDirection)
    requires
        is_sorted_from(new, rows, SortKey::Duration, dir),
    ensures
        forall|i: int, j: int|
            0 <= i < j < new.len() ==> if dir == SortDirection::Asc {
                (#[trigger] new[i]).duration_seconds <= (#[trigger] new[j]).duration_seconds
            } else {
                new[i].duration_seconds >= new[j].duration_seconds
            },
{
    sorted_rows_are_in_order(new, rows, SortKey::Duration, dir);
    assert forall|i: int, j: int| 0 <= i < j < new.len() implies if dir == SortDirection::Asc {
        (#[trigger] new[i]).duration_seconds <= (#[trigger] new[j]).duration_seconds
    } else {
        new[i].duration_seconds >= new[j].duration_seconds
    } by {
        assert(!row_before(new[j], new[i], SortKey::Duration, dir));
    }
}

/// After a sort by stage, no name of a stage is less than one before it, or in
/// the other direction than one after it.
pub proof fn stages_are_sorted(new: Seq<ReplayRow>, rows: Seq<ReplayRow>, dir: SortDirection)
    requires
        is_sorted_from(new, rows, SortKey::Stage, dir),
    ensures
        forall|i: int, j: int|
            0 <= i < j < new.len() ==> {
                let a = known_name(stage_text((#[trigger] new[i]).stage_id as int));
                let b = known_name(stage_text((#[trigger] new[j]).stage_id as int));
                if dir == SortDirection::Asc {
                    a == b || precedes(a, b)
                } else {
                    a == b || precedes(b, a)
                }
            },
{
    sorted_rows_are_in_order(new, rows, SortKey::Stage, dir);
    assert forall|i: int, j: int| 0 <= i < j < new.len() implies {
        let a = known_name(stage_text((#[trigger] new[i]).stage_id as int));
        let b = known_name(stage_text((#[trigger] new[j]).stage_id as int));
        if dir == SortDirection::Asc {
            a == b || precedes(a, b)
        } else {
            a == b || precedes(b, a)
        }
    } by {
        assert(!row_before(new[j], new[i], SortKey::Stage, dir));
        lemma_precedes_total(stage_of(new[i]), stage_of(new[j]));
    }
}

/// After a sort by date of writing, the timestamps run up or down.
pub proof fn added_dates_are_sorted(new: Seq<ReplayRow>, rows: Seq<ReplayRow>, dir: SortDirection)
    requires
        is_sorted_from(new, rows, SortKey::IngestedAt, dir),
    ensures
        forall|i: int, j: int|
            0 <= i < j < new.len() ==> {
                let (a, b) = ((#[trigger] new[i]).ingested_at@, (#[trigger] new[j]).ingested_at@);
                if dir == SortDirection::Asc {
                    a == b || precedes(a, b)
                } else {
                    a == b || precedes(b, a)
                }
            },
{
    sorted_rows_are_in_order(new, rows, SortKey::IngestedAt, dir);
    assert forall|i: int, j: int| 0 <= i < j < new.len() implies {
        let (a, b) = ((#[trigger] new[i]).ingested_at@, (#[trigger] new[j]).ingested_at@);
        if dir == SortDirection::Asc {
            a == b || precedes(a, b)
        } else {
            a == b || precedes(b, a)
        }
    } by {
        assert(!row_before(new[j], new[i], SortKey::IngestedAt, dir));
        lemma_precedes_total(new[i].ingested_at@, new[j].ingested_at@);
    }
}

/// After a sort by date of play, the timestamps of the rows that have one run
/// up or down.
pub proof fn played_dates_are_sorted(new: Seq<ReplayRow>, rows: Seq<ReplayRow>, dir: SortDirection)
    requires
        is_sorted_from(new, rows, SortKey::PlayedAt, dir),
    ensures
        forall|i: int, j: int|
            0 <= i < j < new.len() && (#[trigger] new[i]).played_at is Some && (
            #[trigger] new[j]).played_at is Some ==> {
                let (a, b) = (new[i].played_at->0@, new[j].played_at->0@);
                if dir == SortDirection::Asc {
                    a == b || precedes(a, b)
                } else {
                    a == b || precedes(b, a)
                }
            },
{
    sorted_rows_are_in_order(new, rows, SortKey::PlayedAt, dir);
    assert forall|i: int, j: int|
        0 <= i < j < new.len() && (#[trigger] new[i]).played_at is Some && (
        #[trigger] new[j]).played_at is Some implies {
        let (a, b) = (new[i].played_at->0@, new[j].played_at->0@);
        if dir == SortDirection::Asc {
            a == b || precedes(a, b)
        } else {
            a == b || precedes(b, a)
        }
    } by {
        assert(!row_before(new[j], new[i], SortKey::PlayedAt, dir));
        lemma_precedes_total(new[i].played_at->0@, new[j].played_at->0@);
    }
}

/// After a sort by outcome, the games won stand before those lost, or in the
/// other direction behind them.
pub proof fn outcomes_are_sorted(new: Seq<ReplayRow>, rows: Seq<ReplayRow>, dir: SortDirection)
    requires
        is_sorted_from(new, rows, SortKey::Outcome, dir),
    ensures
        forall|i: int, j: int|
            0 <= i < j < new.len() && (#[trigger] new[i]).user_won == Some(
                dir == SortDirection::Desc,
            ) ==> (#[trigger] new[j]).user_won != Some(dir == SortDirection::Asc),
{
    sorted_rows_are_in_order(new, rows, SortKey::Outcome, dir);
    assert forall|i: int, j: int|
        0 <= i < j < new.len() && (#[trigger] new[i]).user_won == Some(
            dir == SortDirection::Desc,
        ) implies (#[trigger] new[j]).user_won != Some(dir == SortDirection::Asc) by {
        assert(!row_before(new[j], new[i], SortKey::Outcome, dir));
    }
}

/// A sort moves rows about: it drops none, adds none, and leaves the rows that
/// show the same in the column in the order that they had.
pub proof fn sorting_only_moves_rows(
    new: Seq<ReplayRow>,
    rows: Seq<ReplayRow>,
    key: SortKey,
    dir: SortDirection,
)
    requires
        is_sorted_from(new, rows, key, dir),
    ensures
        exists|order: Seq<usize>|
            {
                &&& #[trigger] distinct_places(order, rows.len() as int)
                &&& order.len() == rows.len()
                &&& new == picked(rows, order)
                &&& forall|a: int, b: int|
                    0 <= a < b < order.len() && ties(
                        rows[#[trigger] order[a] as int],
                        rows[#[trigger] order[b] as int],
                        key,
                    ) ==> order[a] < order[b]
            },
{
    let order = choose|order: Seq<usize>|
        #[trigger] is_row_order(rows, key, dir, order) && new == picked(rows, order);
    assert forall|a: int, b: int| 0 <= a < b < order.len() implies #[trigger] order[a]
        != #[trigger] order[b] by {
        assert(row_first(rows, key, dir, order[a] as int, order[b] as int));
        let r = rows[order[a] as int];
        lemma_row_before(r, r, r, key, dir);
    }
    assert(distinct_places(order, rows.len() as int));
    assert forall|a: int, b: int|
        0 <= a < b < order.len() && ties(
            rows[#[trigger] order[a] as int],
            rows[#[trigger] order[b] as int],
            key,
        ) implies order[a] < order[b] by {
        assert(row_first(rows, key, dir, order[a] as int, order[b] as int));
        let (x, y) = (rows[order[a] as int], rows[order[b] as int]);
        lemma_row_before(x, x, x, key, dir);
        if both_known(x, y, key) {
            descending_reverses_ascending(x, y, key);
        }
    }
}

/// A duration is written as minutes and seconds: together they make up
/// the duration, and the seconds are two digits below sixty.
pub proof fn durations_read_back(seconds: int)
    requires
        0 <= seconds,
    ensures
        exists|m: nat, s: nat|
            s < 60 && 60 * m + s == seconds && #[trigger] duration_text(seconds) == #[trigger] decimal_text(
                m,
            ) + ":"@ + (if s < 10 {
                "0"@ + #[trigger] decimal_text(s)
            } else {
                decimal_text(s)
            }),
{
    let m = (seconds / 60) as nat;
    let s = (seconds % 60) as nat;
    reveal_strlit("0");
    reveal_with_fuel(decimal_text, 3);
    assert(padded(seconds % 60, 2) =~= (if s < 10 {
        "0"@ + decimal_text(s)
    } else {
        decimal_text(s)
    }));
    assert(duration_text(seconds) == decimal_text(m) + ":"@ + padded(seconds % 60, 2));
}

/// A row tells when its game was played and when it was written as the game
/// does, and has nobody in a slot that names nobody.
pub proof fn rows_keep_their_times(
    row: ReplayRow,
    g: Game,
    players: Seq<GamePlayer>,
    user: Option<Seq<char>>,
)
    requires
        is_row_of(row, g, players, user),
    ensures
        row.ingested_at@ == g.ingested_at@,
        row.played_at is Some <==> g.started_at is Some,
        row.played_at is Some ==> row.played_at->0@ == g.started_at->0@,
        g.first is None ==> row.slots@[0] is None,
        g.second is None ==> row.slots@[1] is None,
        g.third is None ==> row.slots@[2] is None,
        g.fourth is None ==> row.slots@[3] is None,
{
}

/// A user is looked for exactly where their code is not empty.
pub proof fn users_have_a_code(code: &str)
    ensures
        user_text(None) is None,
        user_text(Some(code)) is Some <==> code@.len() > 0,
        user_text(Some(code)) is Some ==> user_text(Some(code))->0 == code@,
{
}

/// A duration below zero is written like none, and a minute more counts one
/// minute up.
pub proof fn minutes_count_up(seconds: int)
    requires
        0 <= seconds,
    ensures
        duration_text(-seconds) == duration_text(0),
        duration_text(seconds + 60) == decimal_text((seconds / 60 + 1) as nat) + ":"@ + padded(
            seconds % 60,
            2,
        ),
{
}

} // verus!
