//! How often a player wins: against whom, where, and with what.
use vstd::prelude::*;
use crate::gamedata::{character_name, character_text, stage_name, stage_text};
use crate::models::{Game, GamePlayer};
use crate::dates::front;
use crate::order::{lists_in_order, first_of, stable_order, Ranking};
use crate::replay_list::{
    known_name, player_of_id, sits, slot_facts, slot_has, slots_name_the_last_player,
};
use crate::text::{integer_text, push_integer, same, str_text, texts};
use crate::textmap::TextMap;

verus! {

broadcast use vstd::string::group_string_axioms;

/// Games won and games played.
#[derive(Debug, Copy, Clone, PartialEq, Eq, Structural)]
pub struct WinProportion {
    pub wins: i32,
    pub total: i32,
}

impl WinProportion {
    /// No games.
    pub fn new_winproportion() -> (w: WinProportion)
        ensures
            w.wins == 0,
            w.total == 0,
    {
        WinProportion { wins: 0, total: 0 }
    }
}

/// The record of a player.
pub struct WinAnalytics {
    /// By opponent.
    pub opponents: TextMap<WinProportion>,
    /// By stage.
    pub stages: [WinProportion; 33],
    /// By the player's own character.
    pub played_characters: [WinProportion; 33],
    /// By the opponents' character.
    pub opp_characters: [WinProportion; 33],
}

/// A game names a player that the players do not hold.
#[derive(Debug, Copy, Clone, PartialEq, Eq, Structural)]
pub struct UnknownPlayer {
    pub id: i32,
}

/// A slot that names someone: their code and their character.
pub type Slot = Option<(Seq<char>, i32)>;

/// The slots of a game, in order.
pub open spec fn game_slots(players: Seq<GamePlayer>, g: Game) -> Seq<Slot> {
    seq![
        slot_facts(players, g.first),
        slot_facts(players, g.second),
        slot_facts(players, g.third),
        slot_facts(players, g.fourth),
    ]
}

/// Whether the player placed first.
pub open spec fn is_won(players: Seq<GamePlayer>, me: Seq<char>, g: Game) -> bool {
    slot_has(slot_facts(players, g.first), me)
}

/// How many of the first `k` slots hold someone of whom `p` holds.
pub open spec fn hits(slots: Seq<Slot>, p: spec_fn(Seq<char>, i32) -> bool, k: int) -> nat
    decreases k,
{
    if k <= 0 {
        0
    } else {
        hits(slots, p, k - 1) + (match slots[k - 1] {
            Some((code, character)) => if p(code, character) {
                1nat
            } else {
                0nat
            },
            None => 0nat,
        })
    }
}

/// How often someone of whom `p` holds took part.
pub open spec fn total_of(
    games: Seq<Game>,
    players: Seq<GamePlayer>,
    p: spec_fn(Seq<char>, i32) -> bool,
) -> nat
    decreases games.len(),
{
    if games.len() == 0 {
        0
    } else {
        total_of(games.drop_last(), players, p) + hits(game_slots(players, games.last()), p, 4)
    }
}

/// How often someone of whom `p` holds took part in a game that `me` won.
pub open spec fn wins_of(
    games: Seq<Game>,
    players: Seq<GamePlayer>,
    me: Seq<char>,
    p: spec_fn(Seq<char>, i32) -> bool,
) -> nat
    decreases games.len(),
{
    if games.len() == 0 {
        0
    } else {
        wins_of(games.drop_last(), players, me, p) + (if is_won(players, me, games.last()) {
            hits(game_slots(players, games.last()), p, 4)
        } else {
            0
        })
    }
}

/// How many games were played on a stage.
pub open spec fn stage_total(games: Seq<Game>, stage: int) -> nat
    decreases games.len(),
{
    if games.len() == 0 {
        0
    } else {
        stage_total(games.drop_last(), stage) + (if games.last().stage == stage {
            1nat
        } else {
            0nat
        })
    }
}

/// How many games on a stage `me` won.
pub open spec fn stage_wins(
    games: Seq<Game>,
    players: Seq<GamePlayer>,
    me: Seq<char>,
    stage: int,
) -> nat
    decreases games.len(),
{
    if games.len() == 0 {
        0
    } else {
        stage_wins(games.drop_last(), players, me, stage) + (if games.last().stage == stage && is_won(
            players,
            me,
            games.last(),
        ) {
            1nat
        } else {
            0nat
        })
    }
}

pub open spec fn with_code(me: Seq<char>, code: Seq<char>) -> spec_fn(Seq<char>, i32) -> bool {
    |c: Seq<char>, _x: i32| c != me && c == code
}

pub open spec fn theirs(me: Seq<char>, character: int) -> spec_fn(Seq<char>, i32) -> bool {
    |c: Seq<char>, x: i32| c != me && x == character
}

pub open spec fn own(me: Seq<char>, character: int) -> spec_fn(Seq<char>, i32) -> bool {
    |c: Seq<char>, x: i32| c == me && x == character
}

/// The record of `me` over some games.
pub open spec fn is_record(
    a: WinAnalytics,
    games: Seq<Game>,
    players: Seq<GamePlayer>,
    me: Seq<char>,
) -> bool {
    &&& a.opponents.wf()
    &&& forall|code: Seq<char>|
        {
            &&& #[trigger] a.opponents@.contains_key(code) <==> total_of(
                games,
                players,
                with_code(me, code),
            ) > 0
            &&& a.opponents@.contains_key(code) ==> a.opponents@[code].total == total_of(
                games,
                players,
                with_code(me, code),
            ) && a.opponents@[code].wins == wins_of(games, players, me, with_code(me, code))
        }
    &&& forall|i: int|
        0 <= i < 33 ==> (#[trigger] a.stages@[i]).total == stage_total(games, i)
            && a.stages@[i].wins == stage_wins(games, players, me, i)
    &&& forall|i: int|
        0 <= i < 33 ==> (#[trigger] a.opp_characters@[i]).total == total_of(
            games,
            players,
            theirs(me, i),
        ) && a.opp_characters@[i].wins == wins_of(games, players, me, theirs(me, i))
    &&& forall|i: int|
        0 <= i < 33 ==> (#[trigger] a.played_characters@[i]).total == total_of(
            games,
            players,
            own(me, i),
        ) && a.played_characters@[i].wins == wins_of(games, players, me, own(me, i))
}

/// The first id among some slots that no player has.
pub open spec fn missing_id(players: Seq<GamePlayer>, ids: Seq<Option<i32>>) -> Option<i32>
    decreases ids.len(),
{
    if ids.len() == 0 {
        None
    } else if ids[0] is Some && player_of_id(players, ids[0]->0) is None {
        ids[0]
    } else {
        missing_id(players, ids.drop_first())
    }
}

pub open spec fn slot_ids(g: Game) -> Seq<Option<i32>> {
    seq![g.first, g.second, g.third, g.fourth]
}

/// The first id that a game names and no player has, game by game.
pub open spec fn first_missing(players: Seq<GamePlayer>, games: Seq<Game>) -> Option<i32>
    decreases games.len(),
{
    if games.len() == 0 {
        None
    } else {
        match first_missing(players, games.drop_last()) {
            Some(id) => Some(id),
            None => missing_id(players, slot_ids(games.last())),
        }
    }
}

/// Whether the stage and the characters of a game are ones that are counted.
pub open spec fn in_tables(players: Seq<GamePlayer>, g: Game) -> bool {
    &&& 0 <= g.stage < 33
    &&& forall|k: int|
        0 <= k < 4 ==> (#[trigger] game_slots(players, g)[k] matches Some((_, character)) ==> 0
            <= character < 33)
}

/// The player of an id.
pub fn find_player<'a>(players: &'a Vec<GamePlayer>, id: i32) -> (r: Option<&'a GamePlayer>)
    ensures
        match r {
            Some(p) => player_of_id(players@, id) == Some(*p),
            None => player_of_id(players@, id) is None,
        },
{
    let mut i: usize = players.len();
    assert(players@.take(players@.len() as int) =~= players@);
    while i > 0
        invariant
            i <= players.len(),
            player_of_id(players@, id) == player_of_id(players@.take(i as int), id),
        decreases i,
    {
        assert(players@.take(i as int).drop_last() =~= players@.take(i - 1));
        if players[i - 1].id == id {
            return Some(&players[i - 1]);
        }
        i -= 1;
    }
    None
}

/// The code of a player.
pub fn get_game_player_code<'a>(players: &'a Vec<GamePlayer>, find_id: i32) -> (r: Result<
    &'a str,
    UnknownPlayer,
>)
    ensures
        match r {
            Ok(code) => player_of_id(players@, find_id) matches Some(p) && p.code@ == code@,
            Err(e) => player_of_id(players@, find_id) is None && e.id == find_id,
        },
{
    match find_player(players, find_id) {
        Some(p) => Ok(p.code.as_str()),
        None => Err(UnknownPlayer { id: find_id }),
    }
}

/// The character of a player.
pub fn get_character(players: &Vec<GamePlayer>, find_id: i32) -> (r: Result<i32, UnknownPlayer>)
    ensures
        match r {
            Ok(c) => player_of_id(players@, find_id) matches Some(p) && p.character == c,
            Err(e) => player_of_id(players@, find_id) is None && e.id == find_id,
        },
{
    match find_player(players, find_id) {
        Some(p) => Ok(p.character),
        None => Err(UnknownPlayer { id: find_id }),
    }
}

fn read_slot<'a>(players: &'a Vec<GamePlayer>, id: Option<i32>) -> (r: Result<
    Option<(&'a str, i32)>,
    UnknownPlayer,
>)
    ensures
        match r {
            Ok(Some((code, character))) => slot_facts(players@, id) == Some((code@, character))
                && !(id is Some && player_of_id(players@, id->0) is None),
            Ok(None) => id is None,
            Err(e) => id == Some(e.id) && player_of_id(players@, e.id) is None,
        },
{
    match id {
        Some(id) => match get_game_player_code(players, id) {
            Ok(code) => match get_character(players, id) {
                Ok(character) => Ok(Some((code, character))),
                Err(e) => Err(e),
            },
            Err(e) => Err(e),
        },
        None => Ok(None),
    }
}

/// Counts one game in a table.
fn count_in(table: &mut [WinProportion; 33], i: i32, won: bool)
    requires
        0 <= i < 33,
        old(table)@[i as int].total < i32::MAX,
        old(table)@[i as int].wins < i32::MAX,
    ensures
        final(table)@ == old(table)@.update(
            i as int,
            WinProportion {
                wins: (old(table)@[i as int].wins + (if won {
                    1int
                } else {
                    0int
                })) as i32,
                total: (old(table)@[i as int].total + 1) as i32,
            },
        ),
{
    let w: WinProportion = table[i as usize];
    let wins: i32 = if won {
        w.wins + 1
    } else {
        w.wins
    };
    table[i as usize] = WinProportion { wins, total: w.total + 1 };
}

spec fn total_so_far(
    games: Seq<Game>,
    players: Seq<GamePlayer>,
    slots: Seq<Slot>,
    k: int,
    p: spec_fn(Seq<char>, i32) -> bool,
) -> nat {
    total_of(games, players, p) + hits(slots, p, k)
}

spec fn wins_so_far(
    games: Seq<Game>,
    players: Seq<GamePlayer>,
    me: Seq<char>,
    slots: Seq<Slot>,
    won: bool,
    k: int,
    p: spec_fn(Seq<char>, i32) -> bool,
) -> nat {
    wins_of(games, players, me, p) + (if won {
        hits(slots, p, k)
    } else {
        0
    })
}

/// The record after some games and the first `k` slots of one more.
spec fn is_partial(
    a: WinAnalytics,
    games: Seq<Game>,
    players: Seq<GamePlayer>,
    me: Seq<char>,
    slots: Seq<Slot>,
    won: bool,
    k: int,
) -> bool {
    &&& a.opponents.wf()
    &&& forall|code: Seq<char>|
        {
            let p = with_code(me, code);
            &&& #[trigger] a.opponents@.contains_key(code) <==> total_so_far(
                games,
                players,
                slots,
                k,
                p,
            ) > 0
            &&& a.opponents@.contains_key(code) ==> a.opponents@[code].total == total_so_far(
                games,
                players,
                slots,
                k,
                p,
            ) && a.opponents@[code].wins == wins_so_far(games, players, me, slots, won, k, p)
        }
    &&& forall|i: int|
        0 <= i < 33 ==> (#[trigger] a.opp_characters@[i]).total == total_so_far(
            games,
            players,
            slots,
            k,
            theirs(me, i),
        ) && a.opp_characters@[i].wins == wins_so_far(
            games,
            players,
            me,
            slots,
            won,
            k,
            theirs(me, i),
        )
    &&& forall|i: int|
        0 <= i < 33 ==> (#[trigger] a.played_characters@[i]).total == total_so_far(
            games,
            players,
            slots,
            k,
            own(me, i),
        ) && a.played_characters@[i].wins == wins_so_far(
            games,
            players,
            me,
            slots,
            won,
            k,
            own(me, i),
        )
}

proof fn lemma_hits_bound(slots: Seq<Slot>, p: spec_fn(Seq<char>, i32) -> bool, k: int)
    requires
        0 <= k,
    ensures
        hits(slots, p, k) <= k,
    decreases k,
{
    if k > 0 {
        lemma_hits_bound(slots, p, k - 1);
    }
}

/// No more wins than games, and no more than four places to a game.
proof fn lemma_total_bound(
    games: Seq<Game>,
    players: Seq<GamePlayer>,
    me: Seq<char>,
    p: spec_fn(Seq<char>, i32) -> bool,
)
    ensures
        wins_of(games, players, me, p) <= total_of(games, players, p) <= 4 * games.len(),
    decreases games.len(),
{
    if games.len() > 0 {
        lemma_total_bound(games.drop_last(), players, me, p);
        lemma_hits_bound(game_slots(players, games.last()), p, 4);
    }
}

proof fn lemma_stage_bound(games: Seq<Game>, players: Seq<GamePlayer>, me: Seq<char>, stage: int)
    ensures
        stage_wins(games, players, me, stage) <= stage_total(games, stage) <= games.len(),
    decreases games.len(),
{
    if games.len() > 0 {
        lemma_stage_bound(games.drop_last(), players, me, stage);
    }
}

/// Counts the `k`-th slot of a game.
fn count_slot(
    a: &mut WinAnalytics,
    slot: Option<(&str, i32)>,
    me: &str,
    won: bool,
    Ghost(games): Ghost<Seq<Game>>,
    Ghost(players): Ghost<Seq<GamePlayer>>,
    Ghost(slots): Ghost<Seq<Slot>>,
    Ghost(k): Ghost<int>,
)
    requires
        is_partial(*old(a), games, players, me@, slots, won, k),
        0 <= k < 4,
        slots.len() == 4,
        4 * (games.len() + 1) <= i32::MAX,
        slots[k] == (match slot {
            Some((code, character)) => Some((code@, character)),
            None => None,
        }),
        slot matches Some((_, character)) ==> 0 <= character < 33,
    ensures
        is_partial(*final(a), games, players, me@, slots, won, k + 1),
        final(a).stages == old(a).stages,
{
    let ghost before = *a;
    match slot {
        Some((code, character)) => {
            proof {
                assert forall|p: spec_fn(Seq<char>, i32) -> bool|
                    #[trigger] total_so_far(games, players, slots, k, p) < i32::MAX
                    && wins_so_far(games, players, me@, slots, won, k, p) <= total_so_far(games, players, slots, k, p) by {
                    lemma_total_bound(games, players, me@, p);
                    lemma_hits_bound(slots, p, k);
                }
                assert(a.opp_characters@[character as int].total == total_so_far(games, players, slots, k, theirs(me@, character as int)));
                assert(a.played_characters@[character as int].total == total_so_far(games, players, slots, k, own(me@, character as int)));
            }
            if !same(code, me) {
                let tally: WinProportion = match a.opponents.get(code) {
                    Some(w) => *w,
                    None => WinProportion::new_winproportion(),
                };
                proof {
                    let p = with_code(me@, code@);
                    assert(before.opponents@.contains_key(code@) <==> total_so_far(games, players, slots, k, p) > 0);
                    assert(wins_so_far(games, players, me@, slots, won, k, p) <= total_so_far(games, players, slots, k, p));
                }
                let wins: i32 = if won {
                    tally.wins + 1
                } else {
                    tally.wins
                };
                a.opponents.insert(code.to_owned(), WinProportion { wins, total: tally.total + 1 });
                count_in(&mut a.opp_characters, character, won);
                proof {
                    assert forall|c: Seq<char>|
                        {
                            let p = with_code(me@, c);
                            &&& #[trigger] a.opponents@.contains_key(c) <==> total_so_far(games, players, slots, k + 1, p) > 0
                            &&& a.opponents@.contains_key(c) ==> a.opponents@[c].total == total_so_far(games, players, slots, k + 1, p)
                                && a.opponents@[c].wins == wins_so_far(games, players, me@, slots, won, k + 1, p)
                        } by {
                        assert(before.opponents@.contains_key(c) <==> total_so_far(games, players, slots, k, with_code(me@, c)) > 0);
                    }
                }
            } else {
                count_in(&mut a.played_characters, character, won);
                proof {
                    assert forall|c: Seq<char>|
                        {
                            let p = with_code(me@, c);
                            &&& #[trigger] a.opponents@.contains_key(c) <==> total_so_far(games, players, slots, k + 1, p) > 0
                            &&& a.opponents@.contains_key(c) ==> a.opponents@[c].total == total_so_far(games, players, slots, k + 1, p)
                                && a.opponents@[c].wins == wins_so_far(games, players, me@, slots, won, k + 1, p)
                        } by {
                        assert(before.opponents@.contains_key(c) <==> total_so_far(games, players, slots, k, with_code(me@, c)) > 0);
                    }
                }
            }
        },
        None => {
            proof {
                assert forall|c: Seq<char>|
                    {
                        let p = with_code(me@, c);
                        &&& #[trigger] a.opponents@.contains_key(c) <==> total_so_far(games, players, slots, k + 1, p) > 0
                        &&& a.opponents@.contains_key(c) ==> a.opponents@[c].total == total_so_far(games, players, slots, k + 1, p)
                            && a.opponents@[c].wins == wins_so_far(games, players, me@, slots, won, k + 1, p)
                    } by {
                    assert(before.opponents@.contains_key(c) <==> total_so_far(games, players, slots, k, with_code(me@, c)) > 0);
                }
            }
        },
    }
}

/// The record before any game.
fn no_games() -> (a: WinAnalytics)
    ensures
        a.opponents.wf(),
        a.opponents@ == Map::<Seq<char>, WinProportion>::empty(),
        forall|i: int|
            0 <= i < 33 ==> (#[trigger] a.stages@[i]).wins == 0 && a.stages@[i].total == 0,
        forall|i: int|
            0 <= i < 33 ==> (#[trigger] a.opp_characters@[i]).wins == 0 && a.opp_characters@[i].total
                == 0,
        forall|i: int|
            0 <= i < 33 ==> (#[trigger] a.played_characters@[i]).wins == 0
                && a.played_characters@[i].total == 0,
{
    WinAnalytics {
        opponents: TextMap::new(),
        stages: [WinProportion { wins: 0, total: 0 };33],
        played_characters: [WinProportion { wins: 0, total: 0 };33],
        opp_characters: [WinProportion { wins: 0, total: 0 };33],
    }
}

/// The four slots of a game, or the first player that is not there.
fn read_slots<'a>(players: &'a Vec<GamePlayer>, g: &Game) -> (r: Result<
    [Option<(&'a str, i32)>; 4],
    UnknownPlayer,
>)
    ensures
        match r {
            Ok(slots) => missing_id(players@, slot_ids(*g)) is None && forall|k: int|
                0 <= k < 4 ==> game_slots(players@, *g)[k] == (match #[trigger] slots@[k] {
                    Some((code, character)) => Some((code@, character)),
                    None => None,
                }),
            Err(e) => missing_id(players@, slot_ids(*g)) == Some(e.id),
        },
{
    proof {
        reveal_with_fuel(missing_id, 5);
        let ids = slot_ids(*g);
        assert(ids.drop_first() =~= seq![g.second, g.third, g.fourth]);
        assert(ids.drop_first().drop_first() =~= seq![g.third, g.fourth]);
        assert(ids.drop_first().drop_first().drop_first() =~= seq![g.fourth]);
        assert(ids.drop_first().drop_first().drop_first().drop_first() =~= seq![]);
    }
    let first = match read_slot(players, g.first) {
        Ok(s) => s,
        Err(e) => {
            return Err(e);
        },
    };
    let second = match read_slot(players, g.second) {
        Ok(s) => s,
        Err(e) => {
            return Err(e);
        },
    };
    let third = match read_slot(players, g.third) {
        Ok(s) => s,
        Err(e) => {
            return Err(e);
        },
    };
    let fourth = match read_slot(players, g.fourth) {
        Ok(s) => s,
        Err(e) => {
            return Err(e);
        },
    };
    Ok([first, second, third, fourth])
}

fn in_table(id: i32) -> (r: bool)
    ensures
        r == (0 <= id < 33),
{
    0 <= id && id < 33
}

fn slot_in_table(slot: Option<(&str, i32)>) -> (r: bool)
    ensures
        r == (slot matches Some((_, character)) ==> 0 <= character < 33),
{
    match slot {
        Some((_, character)) => in_table(character),
        None => true,
    }
}

/// Whether games can be counted: they are not too many, and up to the first
/// game with an unknown player all stages and characters are ones that are
/// counted.
pub open spec fn are_countable(games: Seq<Game>, players: Seq<GamePlayer>) -> bool {
    &&& 4 * games.len() <= i32::MAX
    &&& forall|i: int|
        0 <= i < games.len() && first_missing(players, games.take(i + 1)) is None
            ==> #[trigger] in_tables(players, games[i])
}

/// Whether games can be counted.
pub fn can_analyze(games: &Vec<Game>, players: &Vec<GamePlayer>) -> (r: bool)
    ensures
        r == are_countable(games@, players@),
{
    if games.len() > 0x1fff_ffff {
        return false;
    }
    let mut i: usize = 0;
    assert(games@.take(0) =~= Seq::<Game>::empty());
    while i < games.len()
        invariant
            i <= games.len() <= 0x1fff_ffff,
            first_missing(players@, games@.take(i as int)) is None,
            forall|j: int| 0 <= j < i ==> #[trigger] in_tables(players@, games@[j]),
        decreases games.len() - i,
    {
        let ghost next = games@.take(i + 1);
        let ghost g = games@[i as int];
        proof {
            assert(next.drop_last() =~= games@.take(i as int));
            assert(next.last() == g);
        }
        let held: [Option<(&str, i32)>; 4] = match read_slots(players, &games[i]) {
            Ok(s) => s,
            Err(_) => {
                assert forall|j: int|
                    0 <= j < games@.len() && first_missing(players@, games@.take(j + 1)) is None
                    implies #[trigger] in_tables(players@, games@[j]) by {
                    if j >= i {
                        let more = games@.take(j + 1);
                        assert(more.take(i + 1) =~= next);
                        lemma_missing_stays(players@, more, i + 1);
                    }
                }
                return true;
            },
        };
        let known: bool = in_table(games[i].stage) && slot_in_table(held[0]) && slot_in_table(held[1])
            && slot_in_table(held[2]) && slot_in_table(held[3]);
        proof {
            let slots = game_slots(players@, g);
            assert(known == in_tables(players@, g)) by {
                assert(slots[0] == game_slots(players@, g)[0]);
                assert(slots[1] == game_slots(players@, g)[1]);
                assert(slots[2] == game_slots(players@, g)[2]);
                assert(slots[3] == game_slots(players@, g)[3]);
                assert(held@[0] == held[0] && held@[1] == held[1] && held@[2] == held[2] && held@[3]
                    == held[3]);
            }
        }
        if !known {
            assert(first_missing(players@, games@.take(i + 1)) is None);
            return false;
        }
        i += 1;
    }
    true
}

/// The record of a player over some games. A game counts as won where the
/// player is in its first slot. Everyone else in a game counts as an opponent.
pub fn analyze_games(games: &Vec<Game>, players: &Vec<GamePlayer>, player_code: &str) -> (r: Result<
    WinAnalytics,
    UnknownPlayer,
>)
    requires
        are_countable(games@, players@),
    ensures
        match r {
            Ok(a) => first_missing(players@, games@) is None && is_record(
                a,
                games@,
                players@,
                player_code@,
            ),
            Err(e) => first_missing(players@, games@) == Some(e.id),
        },
{
    let ghost me = player_code@;
    let mut a = no_games();
    let mut i: usize = 0;
    assert(games@.take(0) =~= Seq::<Game>::empty());
    while i < games.len()
        invariant
            me == player_code@,
            i <= games.len(),
            4 * games.len() <= i32::MAX,
            forall|j: int|
                0 <= j < games.len() && first_missing(players@, games@.take(j + 1)) is None
                    ==> #[trigger] in_tables(players@, games@[j]),
            first_missing(players@, games@.take(i as int)) is None,
            is_record(a, games@.take(i as int), players@, me),
        decreases games.len() - i,
    {
        let ghost done = games@.take(i as int);
        let ghost next = games@.take(i + 1);
        let ghost g = games@[i as int];
        let ghost slots = game_slots(players@, g);
        proof {
            assert(next.drop_last() =~= done);
            assert(next.last() == g);
        }
        let held: [Option<(&str, i32)>; 4] = match read_slots(players, &games[i]) {
            Ok(s) => s,
            Err(e) => {
                proof {
                    assert(first_missing(players@, next) == Some(e.id));
                    lemma_missing_stays(players@, games@, i + 1);
                }
                return Err(e);
            },
        };
        assert(in_tables(players@, g));
        let won: bool = match held[0] {
            Some((code, _)) => same(code, player_code),
            None => false,
        };
        proof {
            assert(game_slots(players@, g)[0] == slot_facts(players@, g.first));
            assert(won == is_won(players@, me, g));
            assert(is_partial(a, done, players@, me, slots, won, 0));
            assert(slots[0] == game_slots(players@, g)[0] && slots[1] == game_slots(players@, g)[1]
                && slots[2] == game_slots(players@, g)[2] && slots[3] == game_slots(players@, g)[3]);
        }
        count_slot(&mut a, held[0], player_code, won, Ghost(done), Ghost(players@), Ghost(slots), Ghost(0));
        count_slot(&mut a, held[1], player_code, won, Ghost(done), Ghost(players@), Ghost(slots), Ghost(1));
        count_slot(&mut a, held[2], player_code, won, Ghost(done), Ghost(players@), Ghost(slots), Ghost(2));
        count_slot(&mut a, held[3], player_code, won, Ghost(done), Ghost(players@), Ghost(slots), Ghost(3));
        let stage: i32 = games[i].stage;
        proof {
            lemma_stage_bound(done, players@, me, stage as int);
            assert(a.stages@[stage as int].total == stage_total(done, stage as int));
        }
        let ghost before = a;
        count_in(&mut a.stages, stage, won);
        proof {
            assert forall|code: Seq<char>|
                {
                    &&& #[trigger] a.opponents@.contains_key(code) <==> total_of(
                        next,
                        players@,
                        with_code(me, code),
                    ) > 0
                    &&& a.opponents@.contains_key(code) ==> a.opponents@[code].total == total_of(
                        next,
                        players@,
                        with_code(me, code),
                    ) && a.opponents@[code].wins == wins_of(next, players@, me, with_code(me, code))
                } by {
                assert(before.opponents@.contains_key(code) <==> total_so_far(
                    done,
                    players@,
                    slots,
                    4,
                    with_code(me, code),
                ) > 0);
            }
            assert(is_record(a, next, players@, me));
        }
        i += 1;
    }
    assert(games@.take(i as int) =~= games@);
    Ok(a)
}

/// What is missing after some games is missing after more.
proof fn lemma_missing_stays(players: Seq<GamePlayer>, games: Seq<Game>, n: int)
    requires
        0 <= n <= games.len(),
        first_missing(players, games.take(n)) is Some,
    ensures
        first_missing(players, games) == first_missing(players, games.take(n)),
    decreases games.len() - n,
{
    if n < games.len() {
        assert(games.take(n + 1).drop_last() =~= games.take(n));
        lemma_missing_stays(players, games, n + 1);
    } else {
        assert(games.take(n) =~= games);
    }
}

// --------------------------------------------------------------------- ranking

/// Tallies under the order of games played, the most first.
pub struct MostPlayed<'a> {
    pub tallies: &'a [WinProportion],
}

impl<'a> Ranking for MostPlayed<'a> {
    open spec fn count(&self) -> nat {
        self.tallies@.len()
    }

    open spec fn lt(&self, i: int, j: int) -> bool {
        self.tallies@[i].total > self.tallies@[j].total
    }

    proof fn lt_is_weak_order(&self) {
    }

    fn before(&self, i: usize, j: usize) -> (r: bool) {
        self.tallies[i].total > self.tallies[j].total
    }
}

/// Whether `full` lists the places with games, each once: the one with more
/// games first, and of two with as many the one that stands first.
pub open spec fn is_ranking(tallies: Seq<WinProportion>, full: Seq<usize>) -> bool {
    &&& forall|a: int|
        0 <= a < full.len() ==> #[trigger] full[a] < tallies.len() && tallies[full[a] as int].total > 0
    &&& forall|a: int, b: int|
        0 <= a < b < full.len() ==> {
            let (x, y) = (#[trigger] full[a] as int, #[trigger] full[b] as int);
            tallies[x].total > tallies[y].total || (tallies[x].total == tallies[y].total && x < y)
        }
    &&& forall|i: int|
        0 <= i < tallies.len() && tallies[i].total > 0 ==> full.contains(#[trigger] (i as usize))
}

/// Whether `top` is the front of the ranking, at most `n` places long.
pub open spec fn is_top(tallies: Seq<WinProportion>, n: int, top: Seq<usize>) -> bool {
    exists|full: Seq<usize>| #[trigger] is_ranking(tallies, full) && top == front(full, n)
}

/// The places with the most games, at most `n` of them.
pub fn top_tallies(tallies: &[WinProportion], n: usize) -> (top: Vec<usize>)
    ensures
        is_top(tallies@, n as int, top@),
{
    let ranking = MostPlayed { tallies };
    let order = stable_order(&ranking, tallies.len());
    let mut k: usize = 0;
    while k < order.len() && tallies[order[k]].total > 0
        invariant
            k <= order.len(),
            ranking.tallies == tallies,
            lists_in_order(ranking, order@, 0, tallies.len() as int),
            forall|a: int| 0 <= a < k ==> tallies@[#[trigger] order@[a] as int].total > 0,
        decreases order.len() - k,
    {
        k += 1;
    }
    let ghost full = order@.take(k as int);
    proof {
        assert forall|a: int, b: int| 0 <= a < b < full.len() implies {
            let (x, y) = (#[trigger] full[a] as int, #[trigger] full[b] as int);
            tallies@[x].total > tallies@[y].total || (tallies@[x].total == tallies@[y].total && x < y)
        } by {
            assert(first_of(ranking, order@[a] as int, order@[b] as int));
        }
        assert forall|i: int| 0 <= i < tallies.len() && tallies@[i].total > 0 implies full.contains(
            #[trigger] (i as usize),
        ) by {
            assert(order@.contains(i as usize));
            let a = choose|a: int| 0 <= a < order@.len() && order@[a] == (i as usize);
            if a >= k {
                if a > k {
                    assert(first_of(ranking, order@[k as int] as int, order@[a] as int));
                }
                assert(false);
            }
            assert(full[a] == (i as usize));
        }
        assert(is_ranking(tallies@, full));
    }
    let mut top: Vec<usize> = Vec::new();
    let mut i: usize = 0;
    while i < k && i < n
        invariant
            i <= k <= order.len(),
            i <= n,
            top@ == order@.take(i as int),
        decreases k - i,
    {
        top.push(order[i]);
        assert(order@.take(i + 1) =~= order@.take(i as int).push(order@[i as int]));
        i += 1;
    }
    assert(top@ =~= front(full, n as int));
    top
}

/// Whether place `i` has the most games, any at all, and is the last that has
/// as many.
pub open spec fn is_favorite(tallies: Seq<WinProportion>, i: int) -> bool {
    &&& 0 <= i < tallies.len()
    &&& tallies[i].total > 0
    &&& forall|j: int|
        0 <= j < tallies.len() ==> (#[trigger] tallies[j]).total <= tallies[i].total && (j > i
            ==> tallies[j].total < tallies[i].total)
}

/// The place with the most games, and its tally.
pub fn argmax_winproportion(arr: &[WinProportion]) -> (r: Option<(usize, WinProportion)>)
    ensures
        match r {
            Some((i, w)) => is_favorite(arr@, i as int) && w == arr@[i as int],
            None => forall|i: int| 0 <= i < arr@.len() ==> (#[trigger] arr@[i]).total <= 0,
        },
{
    let mut best: Option<usize> = None;
    let mut i: usize = 0;
    while i < arr.len()
        invariant
            i <= arr.len(),
            match best {
                Some(b) => b < i && arr@[b as int].total > 0 && forall|j: int|
                    0 <= j < i ==> (#[trigger] arr@[j]).total <= arr@[b as int].total && (j > b
                        ==> arr@[j].total < arr@[b as int].total),
                None => forall|j: int| 0 <= j < i ==> (#[trigger] arr@[j]).total <= 0,
            },
        decreases arr.len() - i,
    {
        if arr[i].total > 0 {
            match best {
                Some(b) => {
                    if arr[i].total >= arr[b].total {
                        best = Some(i);
                    }
                },
                None => {
                    best = Some(i);
                },
            }
        }
        i += 1;
    }
    match best {
        Some(b) => Some((b, arr[b])),
        None => None,
    }
}

/// What a player does most.
#[derive(Debug)]
pub struct Favorites {
    /// The character that they play, and how often.
    pub character: Option<(usize, i32)>,
    /// The stage, and how often.
    pub stage: Option<(usize, i32)>,
    /// The character that they face, and how often.
    pub faced: Option<(usize, i32)>,
    /// The opponent, and how often. Which one it is of those that are met
    /// equally often is left open.
    pub opponent: Option<(String, i32)>,
}

/// Whether `f` is the place with the most games, and their number.
pub open spec fn is_most(f: Option<(usize, i32)>, tallies: Seq<WinProportion>) -> bool {
    match f {
        Some((i, n)) => is_favorite(tallies, i as int) && n == tallies[i as int].total,
        None => forall|i: int| 0 <= i < tallies.len() ==> (#[trigger] tallies[i]).total <= 0,
    }
}

/// Whether `f` is an opponent with the most games, and their number.
pub open spec fn is_most_met(f: Option<(String, i32)>, m: Map<Seq<char>, WinProportion>) -> bool {
    match f {
        Some((code, n)) => m.contains_key(code@) && n > 0 && n == m[code@].total && forall|
            k: Seq<char>,
        | #[trigger]
            m.contains_key(k) ==> m[k].total <= n,
        None => forall|k: Seq<char>| #[trigger] m.contains_key(k) ==> m[k].total <= 0,
    }
}

fn most(arr: &[WinProportion]) -> (r: Option<(usize, i32)>)
    ensures
        is_most(r, arr@),
{
    match argmax_winproportion(arr) {
        Some((i, w)) => Some((i, w.total)),
        None => None,
    }
}

/// An opponent with the most games, and their number.
pub fn top_opponent(m: &TextMap<WinProportion>) -> (r: Option<(String, i32)>)
    requires
        m.wf(),
    ensures
        is_most_met(r, m@),
{
    let mut best: Option<usize> = None;
    let mut i: usize = 0;
    let n: usize = m.len();
    while i < n
        invariant
            m.wf(),
            n == m.keys().len(),
            i <= n,
            match best {
                Some(b) => b < i && m@[m.keys()[b as int]].total > 0 && forall|j: int|
                    0 <= j < i ==> m@[#[trigger] m.keys()[j]].total <= m@[m.keys()[b as int]].total,
                None => forall|j: int| 0 <= j < i ==> m@[#[trigger] m.keys()[j]].total <= 0,
            },
        decreases n - i,
    {
        let total: i32 = m.value_at(i).total;
        if total > 0 {
            let better: bool = match best {
                Some(b) => total > m.value_at(b).total,
                None => true,
            };
            if better {
                best = Some(i);
            }
        }
        i += 1;
    }
    proof {
        m.lemma_keys();
    }
    match best {
        Some(b) => {
            assert(m.keys().contains(m.keys()[b as int]));
            Some((m.key_at(b).to_owned(), m.value_at(b).total))
        },
        None => None,
    }
}

impl WinAnalytics {
    /// What the player does most.
    pub fn favorites(&self) -> (r: Favorites)
        requires
            self.opponents.wf(),
        ensures
            is_most(r.character, self.played_characters@),
            is_most(r.stage, self.stages@),
            is_most(r.faced, self.opp_characters@),
            is_most_met(r.opponent, self.opponents@),
    {
        Favorites {
            character: most(&self.played_characters),
            stage: most(&self.stages),
            faced: most(&self.opp_characters),
            opponent: top_opponent(&self.opponents),
        }
    }
}

// ---------------------------------------------------------------------- report

/// One line of the report.
#[derive(Debug)]
pub enum ReportLine {
    Heading(&'static str),
    Entry(String, WinProportion),
}

/// One line of the report, as characters.
pub enum LineView {
    Heading(Seq<char>),
    Entry(Seq<char>, WinProportion),
}

impl View for ReportLine {
    type V = LineView;

    open spec fn view(&self) -> LineView {
        match self {
            ReportLine::Heading(s) => LineView::Heading(s@),
            ReportLine::Entry(name, w) => LineView::Entry(name@, *w),
        }
    }
}

pub open spec fn lines(v: Seq<ReportLine>) -> Seq<LineView> {
    v.map_values(|l: ReportLine| l@)
}

/// A heading, and below it an entry for each listed place.
pub open spec fn section(
    heading: Seq<char>,
    names: Seq<Seq<char>>,
    tallies: Seq<WinProportion>,
    top: Seq<usize>,
) -> Seq<LineView> {
    seq![LineView::Heading(heading)] + Seq::new(
        top.len(),
        |k: int| LineView::Entry(names[top[k] as int], tallies[top[k] as int]),
    )
}

pub open spec fn stage_names() -> Seq<Seq<char>> {
    Seq::new(33, |i: int| known_name(stage_text(i)))
}

pub open spec fn character_names() -> Seq<Seq<char>> {
    Seq::new(33, |i: int| known_name(character_text(i)))
}

pub open spec fn opponent_tallies(m: TextMap<WinProportion>) -> Seq<WinProportion> {
    m.keys().map_values(|k: Seq<char>| m@[k])
}

/// Whether `r` is the report on a record: opponents, at most fifty, then
/// stages, own characters and opponents' characters, each with the most played
/// first and those without games left out.
pub open spec fn is_report(
    a: WinAnalytics,
    r: Seq<LineView>,
    tops: (Seq<usize>, Seq<usize>, Seq<usize>, Seq<usize>),
) -> bool {
    let opponents = opponent_tallies(a.opponents);
    &&& is_top(opponents, 50, tops.0)
    &&& is_top(a.stages@, 33, tops.1)
    &&& is_top(a.played_characters@, 33, tops.2)
    &&& is_top(a.opp_characters@, 33, tops.3)
    &&& r == section(
        "Opponent stats (top 50 by total):"@,
        a.opponents.keys(),
        opponents,
        tops.0,
    ) + section("\nStage stats:"@, stage_names(), a.stages@, tops.1) + section(
        "\nPlayed character stats:"@,
        character_names(),
        a.played_characters@,
        tops.2,
    ) + section(
        "\nOpponent character stats:"@,
        character_names(),
        a.opp_characters@,
        tops.3,
    )
}

fn push_section(
    out: &mut Vec<ReportLine>,
    heading: &'static str,
    names: &Vec<String>,
    tallies: &[WinProportion],
    n: usize,
) -> (top: Ghost<Seq<usize>>)
    requires
        names@.len() == tallies@.len(),
    ensures
        is_top(tallies@, n as int, top@),
        lines(final(out)@) == lines(old(out)@) + section(
            heading@,
            texts(names@),
            tallies@,
            top@,
        ),
{
    let ghost before = lines(out@);
    let top = top_tallies(tallies, n);
    let ghost entries = Seq::new(
        top@.len(),
        |k: int|
            LineView::Entry(
                texts(names@)[top@[k] as int],
                tallies@[top@[k] as int],
            ),
    );
    out.push(ReportLine::Heading(heading));
    let ghost head = before + seq![LineView::Heading(heading@)];
    assert(lines(out@) =~= head);
    proof {
        let full = choose|full: Seq<usize>|
            #[trigger] is_ranking(tallies@, full) && top@ == front(full, n as int);
        assert forall|k: int| 0 <= k < top@.len() implies #[trigger] top@[k] < tallies@.len() by {
            assert(top@[k] == full[k]);
        }
    }
    let mut k: usize = 0;
    assert(entries.take(0) =~= seq![]);
    while k < top.len()
        invariant
            k <= top.len(),
            names@.len() == tallies@.len(),
            forall|k: int| 0 <= k < top@.len() ==> #[trigger] top@[k] < tallies@.len(),
            entries == Seq::new(
                top@.len(),
                |k: int|
                    LineView::Entry(
                        texts(names@)[top@[k] as int],
                        tallies@[top@[k] as int],
                    ),
            ),
            lines(out@) == head + entries.take(k as int),
        decreases top.len() - k,
    {
        let i: usize = top[k];
        let ghost sofar = out@;
        out.push(ReportLine::Entry(names[i].clone(), tallies[i]));
        assert(lines(out@) =~= lines(sofar).push(entries[k as int]));
        assert(head + entries.take(k + 1) =~= (head + entries.take(k as int)).push(entries[k as int]));
        k += 1;
    }
    assert(entries.take(k as int) =~= entries);
    assert(lines(out@) =~= before + section(
        heading@,
        texts(names@),
        tallies@,
        top@,
    ));
    Ghost(top@)
}

fn known(name: Option<&'static str>) -> (r: String)
    ensures
        r@ == known_name(str_text(name)),
{
    match name {
        Some(s) => s.to_owned(),
        None => "Unknown".to_owned(),
    }
}

impl WinAnalytics {
    /// The lines of the report.
    pub fn report(&self) -> (r: Vec<ReportLine>)
        requires
            self.opponents.wf(),
        ensures
            exists|tops: (Seq<usize>, Seq<usize>, Seq<usize>, Seq<usize>)| #[trigger]
                is_report(*self, lines(r@), tops),
    {
        let mut codes: Vec<String> = Vec::new();
        let mut tallies: Vec<WinProportion> = Vec::new();
        let n: usize = self.opponents.len();
        let mut i: usize = 0;
        while i < n
            invariant
                i <= n,
                self.opponents.wf(),
                n == self.opponents.keys().len(),
                texts(codes@) =~= self.opponents.keys().take(i as int),
                tallies@ =~= opponent_tallies(self.opponents).take(i as int),
            decreases n - i,
        {
            let ghost before = codes@;
            codes.push(self.opponents.key_at(i).to_owned());
            assert(texts(codes@) =~= texts(before).push(self.opponents.keys()[i as int]));
            tallies.push(*self.opponents.value_at(i));
            i += 1;
        }
        let mut stages: Vec<String> = Vec::new();
        let mut characters: Vec<String> = Vec::new();
        let mut id: i32 = 0;
        while id < 33
            invariant
                0 <= id <= 33,
                texts(stages@) =~= stage_names().take(id as int),
                texts(characters@) =~= character_names().take(id as int),
            decreases 33 - id,
        {
            let ghost before = (stages@, characters@);
            stages.push(known(stage_name(id)));
            characters.push(known(character_name(id)));
            assert(texts(stages@) =~= texts(before.0).push(stage_names()[id as int]));
            assert(texts(characters@) =~= texts(before.1).push(character_names()[id as int]));
            id += 1;
        }
        let mut out: Vec<ReportLine> = Vec::new();
        let top0 = push_section(
            &mut out,
            "Opponent stats (top 50 by total):",
            &codes,
            tallies.as_slice(),
            50,
        );
        let top1 = push_section(&mut out, "\nStage stats:", &stages, self.stages.as_slice(), 33);
        let top2 = push_section(
            &mut out,
            "\nPlayed character stats:",
            &characters,
            self.played_characters.as_slice(),
            33,
        );
        let top3 = push_section(
            &mut out,
            "\nOpponent character stats:",
            &characters,
            self.opp_characters.as_slice(),
            33,
        );
        proof {
            assert(texts(codes@) =~= self.opponents.keys());
            assert(tallies@ =~= opponent_tallies(self.opponents));
            assert(texts(stages@) =~= stage_names());
            assert(texts(characters@) =~= character_names());
            let tops = (top0@, top1@, top2@, top3@);
            assert(lines(Seq::<ReportLine>::empty()) =~= seq![]);
            assert(is_report(*self, lines(out@), tops));
        }
        out
    }
}

/// An entry of the report as text, with the win rate in percent as it is to be
/// shown.
pub fn entry_text(name: &str, percent: &str, tally: WinProportion) -> (r: String)
    ensures
        r@ == "  "@ + name@ + " -- "@ + percent@ + "% winrate, "@ + integer_text(tally.wins as int)
            + " wins, "@ + integer_text(tally.total as int) + " total"@,
{
    let mut out = "  ".to_owned();
    out.append(name);
    out.append(" -- ");
    out.append(percent);
    out.append("% winrate, ");
    push_integer(&mut out, tally.wins as i64);
    out.append(" wins, ");
    push_integer(&mut out, tally.total as i64);
    out.append(" total");
    out
}

/// The record of a row of the breakdowns, with the win rate in percent as it is
/// to be shown.
pub fn winrate_text(percent: &str, tally: WinProportion) -> (r: String)
    ensures
        r@ == percent@ + "%  "@ + integer_text(tally.wins as int) + "-"@ + integer_text(
            tally.total - tally.wins,
        ),
{
    let mut out = percent.to_owned();
    out.append("%  ");
    push_integer(&mut out, tally.wins as i64);
    out.append("-");
    push_integer(&mut out, tally.total as i64 - tally.wins as i64);
    out
}

// ------------------------------------------------------------------------ laws

/// No record shows more wins than games.
pub proof fn wins_never_exceed_games(
    a: WinAnalytics,
    games: Seq<Game>,
    players: Seq<GamePlayer>,
    me: Seq<char>,
)
    requires
        is_record(a, games, players, me),
    ensures
        forall|code: Seq<char>| #[trigger]
            a.opponents@.contains_key(code) ==> 0 <= a.opponents@[code].wins
                <= a.opponents@[code].total,
        forall|i: int| 0 <= i < 33 ==> 0 <= (#[trigger] a.stages@[i]).wins <= a.stages@[i].total,
        forall|i: int|
            0 <= i < 33 ==> 0 <= (#[trigger] a.opp_characters@[i]).wins
                <= a.opp_characters@[i].total,
        forall|i: int|
            0 <= i < 33 ==> 0 <= (#[trigger] a.played_characters@[i]).wins
                <= a.played_characters@[i].total,
{
    assert forall|code: Seq<char>| #[trigger] a.opponents@.contains_key(code) implies 0
        <= a.opponents@[code].wins <= a.opponents@[code].total by {
        lemma_total_bound(games, players, me, with_code(me, code));
    }
    assert forall|i: int| 0 <= i < 33 implies 0 <= (#[trigger] a.stages@[i]).wins
        <= a.stages@[i].total by {
        lemma_stage_bound(games, players, me, i);
    }
    assert forall|i: int| 0 <= i < 33 implies 0 <= (#[trigger] a.opp_characters@[i]).wins
        <= a.opp_characters@[i].total by {
        lemma_total_bound(games, players, me, theirs(me, i));
    }
    assert forall|i: int| 0 <= i < 33 implies 0 <= (#[trigger] a.played_characters@[i]).wins
        <= a.played_characters@[i].total by {
        lemma_total_bound(games, players, me, own(me, i));
    }
}

/// The player is never their own opponent.
pub proof fn player_is_no_opponent(
    a: WinAnalytics,
    games: Seq<Game>,
    players: Seq<GamePlayer>,
    me: Seq<char>,
)
    requires
        is_record(a, games, players, me),
    ensures
        !a.opponents@.contains_key(me),
{
    lemma_nobody(games, players, with_code(me, me));
}

proof fn lemma_nobody(
    games: Seq<Game>,
    players: Seq<GamePlayer>,
    p: spec_fn(Seq<char>, i32) -> bool,
)
    requires
        forall|c: Seq<char>, x: i32| !#[trigger] p(c, x),
    ensures
        total_of(games, players, p) == 0,
    decreases games.len(),
{
    if games.len() > 0 {
        lemma_nobody(games.drop_last(), players, p);
        reveal_with_fuel(hits, 5);
    }
}

/// The games in the first `n` entries of a table.
pub open spec fn table_sum(table: Seq<WinProportion>, n: int) -> int
    decreases n,
{
    if n <= 0 {
        0
    } else {
        table_sum(table, n - 1) + table[n - 1].total
    }
}

spec fn stage_sum(games: Seq<Game>, n: int) -> int
    decreases n,
{
    if n <= 0 {
        0
    } else {
        stage_sum(games, n - 1) + stage_total(games, n - 1)
    }
}

proof fn lemma_stage_sum_step(games: Seq<Game>, n: int)
    requires
        games.len() > 0,
    ensures
        stage_sum(games, n) == stage_sum(games.drop_last(), n) + (if 0 <= games.last().stage < n {
            1int
        } else {
            0int
        }),
    decreases n,
{
    if n > 0 {
        lemma_stage_sum_step(games, n - 1);
    }
}

proof fn lemma_stage_sum(games: Seq<Game>)
    requires
        forall|i: int| 0 <= i < games.len() ==> 0 <= (#[trigger] games[i]).stage < 33,
    ensures
        stage_sum(games, 33) == games.len(),
    decreases games.len(),
{
    if games.len() > 0 {
        let less = games.drop_last();
        assert forall|i: int| 0 <= i < less.len() implies 0 <= (#[trigger] less[i]).stage < 33 by {
            assert(less[i] == games[i]);
        }
        assert(games.last() == games[games.len() - 1]);
        lemma_stage_sum(less);
        lemma_stage_sum_step(games, 33);
    } else {
        lemma_no_stage_sum(games, 33);
    }
}

proof fn lemma_no_stage_sum(games: Seq<Game>, n: int)
    requires
        games.len() == 0,
    ensures
        stage_sum(games, n) == 0,
    decreases n,
{
    if n > 0 {
        lemma_no_stage_sum(games, n - 1);
    }
}

proof fn lemma_table_is_stage_sum(table: Seq<WinProportion>, games: Seq<Game>, n: int)
    requires
        table.len() == 33,
        n <= 33,
        forall|i: int| 0 <= i < 33 ==> (#[trigger] table[i]).total == stage_total(games, i),
    ensures
        table_sum(table, n) == stage_sum(games, n),
    decreases n,
{
    if n > 0 {
        lemma_table_is_stage_sum(table, games, n - 1);
        assert(table[n - 1].total == stage_total(games, n - 1));
    }
}

/// Every game is counted on one stage.
pub proof fn stages_count_every_game(
    a: WinAnalytics,
    games: Seq<Game>,
    players: Seq<GamePlayer>,
    me: Seq<char>,
)
    requires
        is_record(a, games, players, me),
        forall|i: int| 0 <= i < games.len() ==> 0 <= (#[trigger] games[i]).stage < 33,
    ensures
        table_sum(a.stages@, 33) == games.len(),
{
    lemma_stage_sum(games);
    lemma_table_is_stage_sum(a.stages@, games, 33);
}

/// 1 where something holds, else 0.
pub open spec fn one(b: bool) -> int {
    if b {
        1
    } else {
        0
    }
}

/// How many of the four slots of a game hold someone of whom `p` holds.
pub open spec fn seats_of(
    players: Seq<GamePlayer>,
    g: Game,
    p: spec_fn(Seq<char>, i32) -> bool,
) -> int {
    one(slot_facts(players, g.first) matches Some((c, x)) && p(c, x)) + one(
        slot_facts(players, g.second) matches Some((c, x)) && p(c, x),
    ) + one(slot_facts(players, g.third) matches Some((c, x)) && p(c, x)) + one(
        slot_facts(players, g.fourth) matches Some((c, x)) && p(c, x),
    )
}

/// The games against an opponent in a record; none where they are not in it.
pub open spec fn games_against(a: WinAnalytics, code: Seq<char>) -> int {
    if a.opponents@.contains_key(code) {
        a.opponents@[code].total as int
    } else {
        0
    }
}

/// The wins against an opponent in a record; none where they are not in it.
pub open spec fn wins_against(a: WinAnalytics, code: Seq<char>) -> int {
    if a.opponents@.contains_key(code) {
        a.opponents@[code].wins as int
    } else {
        0
    }
}

/// The record of no games shows nothing.
pub proof fn no_games_make_no_record(a: WinAnalytics, players: Seq<GamePlayer>, me: Seq<char>)
    requires
        is_record(a, seq![], players, me),
    ensures
        forall|code: Seq<char>| !#[trigger] a.opponents@.contains_key(code),
        forall|i: int|
            0 <= i < 33 ==> (#[trigger] a.stages@[i]).total == 0 && a.stages@[i].wins == 0,
        forall|i: int|
            0 <= i < 33 ==> (#[trigger] a.opp_characters@[i]).total == 0 && a.opp_characters@[i].wins
                == 0,
        forall|i: int|
            0 <= i < 33 ==> (#[trigger] a.played_characters@[i]).total == 0
                && a.played_characters@[i].wins == 0,
{
}

proof fn lemma_hits_are_seats(
    players: Seq<GamePlayer>,
    g: Game,
    p: spec_fn(Seq<char>, i32) -> bool,
    me: Seq<char>,
)
    ensures
        total_of(seq![g], players, p) == seats_of(players, g, p),
        wins_of(seq![g], players, me, p) == (if slot_facts(players, g.first) matches Some((c, _)) && c
            == me {
            seats_of(players, g, p)
        } else {
            0
        }),
{
    reveal_with_fuel(hits, 5);
    reveal_with_fuel(total_of, 2);
    reveal_with_fuel(wins_of, 2);
    assert(seq![g].drop_last() =~= Seq::<Game>::empty());
    assert(seq![g].last() == g);
    let slots = game_slots(players, g);
    assert(slots[0] == slot_facts(players, g.first));
    assert(slots[1] == slot_facts(players, g.second));
    assert(slots[2] == slot_facts(players, g.third));
    assert(slots[3] == slot_facts(players, g.fourth));
}

/// One game counts once for everyone in it, whichever of its four slots they
/// are in: for the opponent and their character where they are not the player,
/// else for the player's own character. It counts once for its stage. All of it
/// counts as won exactly where the player is in the first slot.
pub proof fn one_game_counts_once_for_everyone(
    a: WinAnalytics,
    g: Game,
    players: Seq<GamePlayer>,
    me: Seq<char>,
)
    requires
        is_record(a, seq![g], players, me),
    ensures
        forall|code: Seq<char>| #[trigger]
            games_against(a, code) == seats_of(
                players,
                g,
                |c: Seq<char>, _x: i32| c == code && c != me,
            ),
        forall|i: int|
            0 <= i < 33 ==> (#[trigger] a.opp_characters@[i]).total == seats_of(
                players,
                g,
                |c: Seq<char>, x: i32| c != me && x == i,
            ),
        forall|i: int|
            0 <= i < 33 ==> (#[trigger] a.played_characters@[i]).total == seats_of(
                players,
                g,
                |c: Seq<char>, x: i32| c == me && x == i,
            ),
        forall|i: int| 0 <= i < 33 ==> (#[trigger] a.stages@[i]).total == one(g.stage == i),
        ({
            let won = slot_facts(players, g.first) matches Some((c, _)) && c == me;
            &&& forall|code: Seq<char>| #[trigger]
                wins_against(a, code) == if won {
                    games_against(a, code)
                } else {
                    0
                }
            &&& forall|i: int|
                0 <= i < 33 ==> (#[trigger] a.opp_characters@[i]).wins == if won {
                    a.opp_characters@[i].total
                } else {
                    0
                }
            &&& forall|i: int|
                0 <= i < 33 ==> (#[trigger] a.played_characters@[i]).wins == if won {
                    a.played_characters@[i].total
                } else {
                    0
                }
            &&& forall|i: int|
                0 <= i < 33 ==> (#[trigger] a.stages@[i]).wins == if won {
                    a.stages@[i].total
                } else {
                    0
                }
        }),
{
    assert forall|code: Seq<char>| #[trigger]
        games_against(a, code) == seats_of(players, g, |c: Seq<char>, _x: i32| c == code && c != me) by {
        lemma_hits_are_seats(players, g, with_code(me, code), me);
        assert(!a.opponents@.contains_key(code) || a.opponents@.contains_key(code));
    }
    assert forall|code: Seq<char>| #[trigger]
        wins_against(a, code) == (if slot_facts(players, g.first) matches Some((c, _)) && c == me {
            games_against(a, code)
        } else {
            0
        }) by {
        lemma_hits_are_seats(players, g, with_code(me, code), me);
        assert(!a.opponents@.contains_key(code) || a.opponents@.contains_key(code));
    }
    assert forall|i: int| 0 <= i < 33 implies (#[trigger] a.opp_characters@[i]).total == seats_of(
        players,
        g,
        |c: Seq<char>, x: i32| c != me && x == i,
    ) && a.opp_characters@[i].wins == (if slot_facts(players, g.first) matches Some((c, _)) && c == me {
        a.opp_characters@[i].total
    } else {
        0
    }) by {
        lemma_hits_are_seats(players, g, theirs(me, i), me);
    }
    assert forall|i: int| 0 <= i < 33 implies (#[trigger] a.played_characters@[i]).total == seats_of(
        players,
        g,
        |c: Seq<char>, x: i32| c == me && x == i,
    ) && a.played_characters@[i].wins == (if slot_facts(players, g.first) matches Some((c, _)) && c
        == me {
        a.played_characters@[i].total
    } else {
        0
    }) by {
        lemma_hits_are_seats(players, g, own(me, i), me);
    }
    assert(seq![g].drop_last() =~= Seq::<Game>::empty());
    assert(seq![g].last() == g);
    reveal_with_fuel(stage_total, 2);
    reveal_with_fuel(stage_wins, 2);
}

proof fn lemma_totals_add_up(
    xs: Seq<Game>,
    ys: Seq<Game>,
    players: Seq<GamePlayer>,
    me: Seq<char>,
    p: spec_fn(Seq<char>, i32) -> bool,
)
    ensures
        total_of(xs + ys, players, p) == total_of(xs, players, p) + total_of(ys, players, p),
        wins_of(xs + ys, players, me, p) == wins_of(xs, players, me, p) + wins_of(
            ys,
            players,
            me,
            p,
        ),
    decreases ys.len(),
{
    if ys.len() > 0 {
        lemma_totals_add_up(xs, ys.drop_last(), players, me, p);
        assert((xs + ys).drop_last() =~= xs + ys.drop_last());
        assert((xs + ys).last() == ys.last());
    } else {
        assert(xs + ys =~= xs);
    }
}

proof fn lemma_stages_add_up(
    xs: Seq<Game>,
    ys: Seq<Game>,
    players: Seq<GamePlayer>,
    me: Seq<char>,
    stage: int,
)
    ensures
        stage_total(xs + ys, stage) == stage_total(xs, stage) + stage_total(ys, stage),
        stage_wins(xs + ys, players, me, stage) == stage_wins(xs, players, me, stage) + stage_wins(
            ys,
            players,
            me,
            stage,
        ),
    decreases ys.len(),
{
    if ys.len() > 0 {
        lemma_stages_add_up(xs, ys.drop_last(), players, me, stage);
        assert((xs + ys).drop_last() =~= xs + ys.drop_last());
        assert((xs + ys).last() == ys.last());
    } else {
        assert(xs + ys =~= xs);
    }
}

/// The record over some games and some more is the two records together: every
/// count is the sum of the two.
pub proof fn records_add_up(
    a: WinAnalytics,
    b: WinAnalytics,
    both: WinAnalytics,
    xs: Seq<Game>,
    ys: Seq<Game>,
    players: Seq<GamePlayer>,
    me: Seq<char>,
)
    requires
        is_record(a, xs, players, me),
        is_record(b, ys, players, me),
        is_record(both, xs + ys, players, me),
    ensures
        forall|code: Seq<char>| #[trigger]
            games_against(both, code) == games_against(a, code) + games_against(b, code),
        forall|code: Seq<char>| #[trigger]
            wins_against(both, code) == wins_against(a, code) + wins_against(b, code),
        forall|i: int|
            0 <= i < 33 ==> (#[trigger] both.stages@[i]).total == a.stages@[i].total
                + b.stages@[i].total && both.stages@[i].wins == a.stages@[i].wins
                + b.stages@[i].wins,
        forall|i: int|
            0 <= i < 33 ==> (#[trigger] both.opp_characters@[i]).total == a.opp_characters@[i].total
                + b.opp_characters@[i].total && both.opp_characters@[i].wins
                == a.opp_characters@[i].wins + b.opp_characters@[i].wins,
        forall|i: int|
            0 <= i < 33 ==> (#[trigger] both.played_characters@[i]).total
                == a.played_characters@[i].total + b.played_characters@[i].total
                && both.played_characters@[i].wins == a.played_characters@[i].wins
                + b.played_characters@[i].wins,
{
    assert forall|code: Seq<char>| #[trigger]
        games_against(both, code) == games_against(a, code) + games_against(b, code) by {
        let p = with_code(me, code);
        lemma_totals_add_up(xs, ys, players, me, p);
        lemma_total_bound(xs, players, me, p);
        lemma_total_bound(ys, players, me, p);
        assert(!a.opponents@.contains_key(code) || a.opponents@.contains_key(code));
        assert(!b.opponents@.contains_key(code) || b.opponents@.contains_key(code));
        assert(!both.opponents@.contains_key(code) || both.opponents@.contains_key(code));
    }
    assert forall|code: Seq<char>| #[trigger]
        wins_against(both, code) == wins_against(a, code) + wins_against(b, code) by {
        let p = with_code(me, code);
        lemma_totals_add_up(xs, ys, players, me, p);
        lemma_total_bound(xs, players, me, p);
        lemma_total_bound(ys, players, me, p);
        assert(!a.opponents@.contains_key(code) || a.opponents@.contains_key(code));
        assert(!b.opponents@.contains_key(code) || b.opponents@.contains_key(code));
        assert(!both.opponents@.contains_key(code) || both.opponents@.contains_key(code));
    }
    assert forall|i: int| 0 <= i < 33 implies (#[trigger] both.stages@[i]).total
        == a.stages@[i].total + b.stages@[i].total && both.stages@[i].wins == a.stages@[i].wins
        + b.stages@[i].wins by {
        lemma_stages_add_up(xs, ys, players, me, i);
    }
    assert forall|i: int| 0 <= i < 33 implies (#[trigger] both.opp_characters@[i]).total
        == a.opp_characters@[i].total + b.opp_characters@[i].total && both.opp_characters@[i].wins
        == a.opp_characters@[i].wins + b.opp_characters@[i].wins by {
        lemma_totals_add_up(xs, ys, players, me, theirs(me, i));
    }
    assert forall|i: int| 0 <= i < 33 implies (#[trigger] both.played_characters@[i]).total
        == a.played_characters@[i].total + b.played_characters@[i].total
        && both.played_characters@[i].wins == a.played_characters@[i].wins
        + b.played_characters@[i].wins by {
        lemma_totals_add_up(xs, ys, players, me, own(me, i));
    }
}

/// The slot at a place of a game.
pub open spec fn slot_id(g: Game, k: int) -> Option<i32> {
    if k == 0 {
        g.first
    } else if k == 1 {
        g.second
    } else if k == 2 {
        g.third
    } else {
        g.fourth
    }
}

proof fn lemma_seat_is_counted(
    games: Seq<Game>,
    players: Seq<GamePlayer>,
    p: spec_fn(Seq<char>, i32) -> bool,
    n: int,
    k: int,
)
    requires
        0 <= n < games.len(),
        0 <= k < 4,
        slot_facts(players, slot_id(games[n], k)) matches Some((c, x)) && p(c, x),
    ensures
        total_of(games, players, p) > 0,
    decreases games.len(),
{
    if n == games.len() - 1 {
        reveal_with_fuel(hits, 5);
        let slots = game_slots(players, games.last());
        assert(slots[k] == slot_facts(players, slot_id(games[n], k)));
    } else {
        assert(games.drop_last()[n] == games[n]);
        lemma_seat_is_counted(games.drop_last(), players, p, n, k);
    }
}

/// Everyone but the player who is in any slot of any game is an opponent of the
/// record, with a game at least.
pub proof fn everyone_met_is_in_the_record(
    a: WinAnalytics,
    games: Seq<Game>,
    players: Seq<GamePlayer>,
    me: Seq<char>,
    n: int,
    k: int,
    i: int,
)
    requires
        is_record(a, games, players, me),
        0 <= n < games.len(),
        0 <= k < 4,
        sits(players, slot_id(games[n], k), i),
        players[i].code@ != me,
    ensures
        a.opponents@.contains_key(players[i].code@),
        a.opponents@[players[i].code@].total > 0,
{
    slots_name_the_last_player(players, slot_id(games[n], k));
    lemma_seat_is_counted(games, players, with_code(me, players[i].code@), n, k);
    assert(a.opponents@.contains_key(players[i].code@));
}

/// How many slots of a game name someone.
pub open spec fn seats(g: Game) -> int {
    one(g.first is Some) + one(g.second is Some) + one(g.third is Some) + one(g.fourth is Some)
}

/// How many slots of some games name someone.
pub open spec fn all_seats(games: Seq<Game>) -> int
    decreases games.len(),
{
    if games.len() == 0 {
        0
    } else {
        all_seats(games.drop_last()) + seats(games.last())
    }
}

/// How often the characters below `n` were played, by the player (`mine`) or by
/// the others.
spec fn character_sum(
    games: Seq<Game>,
    players: Seq<GamePlayer>,
    me: Seq<char>,
    mine: bool,
    n: int,
) -> int
    decreases n,
{
    if n <= 0 {
        0
    } else {
        character_sum(games, players, me, mine, n - 1) + total_of(
            games,
            players,
            if mine {
                own(me, n - 1)
            } else {
                theirs(me, n - 1)
            },
        )
    }
}

proof fn lemma_character_sum_step(
    games: Seq<Game>,
    players: Seq<GamePlayer>,
    me: Seq<char>,
    mine: bool,
    n: int,
)
    requires
        games.len() > 0,
        0 <= n,
    ensures
        character_sum(games, players, me, mine, n) == character_sum(
            games.drop_last(),
            players,
            me,
            mine,
            n,
        ) + seats_of(
            players,
            games.last(),
            |c: Seq<char>, x: i32| (c == me) == mine && 0 <= x < n,
        ),
    decreases n,
{
    let g = games.last();
    let p = |c: Seq<char>, x: i32| (c == me) == mine && 0 <= x < n;
    if n > 0 {
        lemma_character_sum_step(games, players, me, mine, n - 1);
        let q = if mine {
            own(me, n - 1)
        } else {
            theirs(me, n - 1)
        };
        let less = |c: Seq<char>, x: i32| (c == me) == mine && 0 <= x < n - 1;
        lemma_hits_are_seats(players, g, q, me);
        assert(seq![g].drop_last() =~= Seq::<Game>::empty());
        assert(seq![g].last() == g);
        assert(total_of(Seq::<Game>::empty(), players, q) == 0);
        assert(total_of(seq![g], players, q) == hits(game_slots(players, g), q, 4));
        assert(seats_of(players, g, p) == seats_of(players, g, less) + seats_of(players, g, q));
    } else {
        assert(seats_of(players, g, p) == 0);
    }
}

proof fn lemma_no_character_sum(players: Seq<GamePlayer>, me: Seq<char>, mine: bool, n: int)
    ensures
        character_sum(seq![], players, me, mine, n) == 0,
    decreases n,
{
    if n > 0 {
        lemma_no_character_sum(players, me, mine, n - 1);
    }
}

proof fn lemma_nobody_missing(players: Seq<GamePlayer>, g: Game)
    requires
        missing_id(players, slot_ids(g)) is None,
    ensures
        g.first is Some ==> slot_facts(players, g.first) is Some,
        g.second is Some ==> slot_facts(players, g.second) is Some,
        g.third is Some ==> slot_facts(players, g.third) is Some,
        g.fourth is Some ==> slot_facts(players, g.fourth) is Some,
{
    reveal_with_fuel(missing_id, 5);
    let ids = slot_ids(g);
    assert(ids.drop_first() =~= seq![g.second, g.third, g.fourth]);
    assert(ids.drop_first().drop_first() =~= seq![g.third, g.fourth]);
    assert(ids.drop_first().drop_first().drop_first() =~= seq![g.fourth]);
}

proof fn lemma_seats_are_characters(games: Seq<Game>, players: Seq<GamePlayer>, me: Seq<char>)
    requires
        first_missing(players, games) is None,
        forall|i: int| 0 <= i < games.len() ==> #[trigger] in_tables(players, games[i]),
    ensures
        character_sum(games, players, me, true, 33) + character_sum(games, players, me, false, 33)
            == all_seats(games),
    decreases games.len(),
{
    if games.len() > 0 {
        let less = games.drop_last();
        let g = games.last();
        assert forall|i: int| 0 <= i < less.len() implies #[trigger] in_tables(players, less[i]) by {
            assert(in_tables(players, games[i]));
        }
        lemma_seats_are_characters(less, players, me);
        lemma_character_sum_step(games, players, me, true, 33);
        lemma_character_sum_step(games, players, me, false, 33);
        lemma_nobody_missing(players, g);
        assert(in_tables(players, games[games.len() - 1]));
        let slots = game_slots(players, g);
        assert(slots[0] == slot_facts(players, g.first));
        assert(slots[1] == slot_facts(players, g.second));
        assert(slots[2] == slot_facts(players, g.third));
        assert(slots[3] == slot_facts(players, g.fourth));
        assert(game_slots(players, g)[0] == slots[0] && game_slots(players, g)[1] == slots[1]
            && game_slots(players, g)[2] == slots[2] && game_slots(players, g)[3] == slots[3]);
    } else {
        assert(games =~= Seq::<Game>::empty());
        lemma_no_character_sum(players, me, true, 33);
        lemma_no_character_sum(players, me, false, 33);
    }
}

proof fn lemma_table_is_character_sum(
    table: Seq<WinProportion>,
    games: Seq<Game>,
    players: Seq<GamePlayer>,
    me: Seq<char>,
    mine: bool,
    n: int,
)
    requires
        table.len() == 33,
        n <= 33,
        forall|i: int|
            0 <= i < 33 ==> (#[trigger] table[i]).total == total_of(
                games,
                players,
                if mine {
                    own(me, i)
                } else {
                    theirs(me, i)
                },
            ),
    ensures
        table_sum(table, n) == character_sum(games, players, me, mine, n),
    decreases n,
{
    if n > 0 {
        lemma_table_is_character_sum(table, games, players, me, mine, n - 1);
        assert(table[n - 1].total == table[n - 1].total);
    }
}

/// Every filled slot of every game is counted once: as the player's own
/// character or as an opponent's.
pub proof fn every_seat_is_counted_once(
    a: WinAnalytics,
    games: Seq<Game>,
    players: Seq<GamePlayer>,
    me: Seq<char>,
)
    requires
        is_record(a, games, players, me),
        first_missing(players, games) is None,
        forall|i: int| 0 <= i < games.len() ==> #[trigger] in_tables(players, games[i]),
    ensures
        table_sum(a.played_characters@, 33) + table_sum(a.opp_characters@, 33) == all_seats(games),
{
    lemma_seats_are_characters(games, players, me);
    lemma_table_is_character_sum(a.played_characters@, games, players, me, true, 33);
    lemma_table_is_character_sum(a.opp_characters@, games, players, me, false, 33);
}

proof fn lemma_missing_is_a_slot(players: Seq<GamePlayer>, g: Game)
    ensures
        missing_id(players, slot_ids(g)) matches Some(id) ==> player_of_id(players, id) is None
            && exists|k: int| 0 <= k < 4 && #[trigger] slot_id(g, k) == Some(id),
        missing_id(players, slot_ids(g)) is None ==> forall|k: int|
            0 <= k < 4 && (#[trigger] slot_id(g, k)) is Some ==> player_of_id(
                players,
                slot_id(g, k)->0,
            ) is Some,
{
    reveal_with_fuel(missing_id, 5);
    let ids = slot_ids(g);
    assert(ids.drop_first() =~= seq![g.second, g.third, g.fourth]);
    assert(ids.drop_first().drop_first() =~= seq![g.third, g.fourth]);
    assert(ids.drop_first().drop_first().drop_first() =~= seq![g.fourth]);
    assert(ids.drop_first().drop_first().drop_first().drop_first() =~= seq![]);
    assert(slot_id(g, 0) == g.first && slot_id(g, 1) == g.second && slot_id(g, 2) == g.third
        && slot_id(g, 3) == g.fourth);
}

/// Games are refused exactly where some slot has an id that no player has, and
/// the id that is told is such an id of the first such game.
pub proof fn unknown_players_are_told(players: Seq<GamePlayer>, games: Seq<Game>)
    ensures
        first_missing(players, games) is None <==> forall|n: int, k: int|
            0 <= n < games.len() && 0 <= k < 4 && (#[trigger] slot_id(games[n], k)) is Some
                ==> player_of_id(players, slot_id(games[n], k)->0) is Some,
        first_missing(players, games) matches Some(id) ==> player_of_id(players, id) is None
            && exists|n: int, k: int|
            0 <= n < games.len() && 0 <= k < 4 && #[trigger] slot_id(games[n], k) == Some(id)
                && first_missing(players, games.take(n)) is None,
    decreases games.len(),
{
    if games.len() > 0 {
        let less = games.drop_last();
        let m = games.len() - 1;
        unknown_players_are_told(players, less);
        lemma_missing_is_a_slot(players, games.last());
        assert(games[m] == games.last());
        assert forall|n: int, k: int| 0 <= n < m && 0 <= k < 4 implies #[trigger] slot_id(games[n], k)
            == slot_id(less[n], k) by {}
        if first_missing(players, games) is None {
            assert forall|n: int, k: int|
                0 <= n < games.len() && 0 <= k < 4 && (#[trigger] slot_id(games[n], k)) is Some
                implies player_of_id(players, slot_id(games[n], k)->0) is Some by {
                if n < m {
                    assert(slot_id(less[n], k) is Some);
                }
            }
        } else if first_missing(players, less) is Some {
            let id = first_missing(players, less)->0;
            let (n, k) = choose|n: int, k: int|
                0 <= n < less.len() && 0 <= k < 4 && #[trigger] slot_id(less[n], k) == Some(id)
                    && first_missing(players, less.take(n)) is None;
            assert(slot_id(games[n], k) == Some(id));
            assert(games.take(n) =~= less.take(n));
        } else {
            let id = first_missing(players, games)->0;
            let k = choose|k: int| 0 <= k < 4 && #[trigger] slot_id(games.last(), k) == Some(id);
            assert(slot_id(games[m], k) == Some(id));
            assert(games.take(m) =~= less);
        }
    }
}

/// The place with the most games is a place with games, no place has more, and
/// of those with as many it is the last; only where no place has games is there
/// none.
pub proof fn favorites_are_played_most(f: Option<(usize, i32)>, tallies: Seq<WinProportion>)
    requires
        is_most(f, tallies),
    ensures
        f matches Some((i, n)) ==> 0 < n && i < tallies.len() && tallies[i as int].total == n
            && forall|j: int|
            0 <= j < tallies.len() ==> (#[trigger] tallies[j]).total <= n && (tallies[j].total == n
                ==> j <= i),
        f is None ==> forall|j: int| 0 <= j < tallies.len() ==> (#[trigger] tallies[j]).total <= 0,
{
}

/// The most-played places come in order, all of them have games, there are at
/// most `n`, and a place with games is left out only where the list is full
/// and nobody on it has fewer.
pub proof fn top_places_have_the_most_games(tallies: Seq<WinProportion>, n: int, top: Seq<usize>)
    requires
        is_top(tallies, n, top),
        0 <= n,
    ensures
        top.len() <= n,
        forall|a: int|
            0 <= a < top.len() ==> #[trigger] top[a] < tallies.len() && tallies[top[a] as int].total
                > 0,
        forall|a: int, b: int|
            0 <= a < b < top.len() ==> tallies[#[trigger] top[a] as int].total
                >= tallies[#[trigger] top[b] as int].total && top[a] != top[b] && (tallies[top[a] as int].total
                == tallies[top[b] as int].total ==> top[a] < top[b]),
        forall|i: int|
            0 <= i < tallies.len() && i <= usize::MAX && tallies[i].total > 0 && !top.contains(
                #[trigger] (i as usize),
            ) ==> top.len() == n && forall|a: int|
                0 <= a < top.len() ==> tallies[#[trigger] top[a] as int].total >= tallies[i].total,
{
    let full = choose|full: Seq<usize>| #[trigger] is_ranking(tallies, full) && top == front(full, n);
    assert forall|a: int| 0 <= a < top.len() implies #[trigger] top[a] == full[a] by {}
    assert forall|i: int|
        0 <= i < tallies.len() && i <= usize::MAX && tallies[i].total > 0 && !top.contains(
            #[trigger] (i as usize),
        ) implies top.len() == n && forall|a: int|
        0 <= a < top.len() ==> tallies[#[trigger] top[a] as int].total >= tallies[i].total by {
        assert(full.contains(i as usize));
        let b = choose|b: int| 0 <= b < full.len() && full[b] == (i as usize);
        if b < top.len() {
            assert(top[b] == (i as usize));
        }
        assert forall|a: int| 0 <= a < top.len() implies tallies[#[trigger] top[a] as int].total
            >= tallies[i].total by {
            assert(full[a] == top[a]);
            assert(tallies[full[a] as int].total >= tallies[full[b] as int].total);
        }
    }
}

/// The report tells of every stage and character that was played, of every
/// opponent as long as they are at most fifty, each with its tally, and of
/// nothing that was not played.
pub proof fn reports_tell_what_was_played(
    a: WinAnalytics,
    r: Seq<LineView>,
    tops: (Seq<usize>, Seq<usize>, Seq<usize>, Seq<usize>),
)
    requires
        is_report(a, r, tops),
    ensures
        forall|i: int|
            0 <= i < 33 && (#[trigger] a.stages@[i]).total > 0 ==> r.contains(
                LineView::Entry(known_name(stage_text(i)), a.stages@[i]),
            ),
        forall|i: int|
            0 <= i < 33 && (#[trigger] a.played_characters@[i]).total > 0 ==> r.contains(
                LineView::Entry(known_name(character_text(i)), a.played_characters@[i]),
            ),
        forall|i: int|
            0 <= i < 33 && (#[trigger] a.opp_characters@[i]).total > 0 ==> r.contains(
                LineView::Entry(known_name(character_text(i)), a.opp_characters@[i]),
            ),
        forall|k: int|
            0 <= k < r.len() ==> (#[trigger] r[k] matches LineView::Entry(_, w) ==> w.total > 0),
        r.len() == 4 + tops.0.len() + tops.1.len() + tops.2.len() + tops.3.len(),
        tops.0.len() <= 50,
        a.opponents.keys().len() <= 50 ==> forall|i: int|
            0 <= i < a.opponents.keys().len() && a.opponents@[#[trigger] a.opponents.keys()[i]].total
                > 0 ==> r.contains(
                LineView::Entry(a.opponents.keys()[i], a.opponents@[a.opponents.keys()[i]]),
            ),
{
    let opponents = opponent_tallies(a.opponents);
    let s0 = section("Opponent stats (top 50 by total):"@, a.opponents.keys(), opponents, tops.0);
    let s1 = section("\nStage stats:"@, stage_names(), a.stages@, tops.1);
    let s2 = section(
        "\nPlayed character stats:"@,
        character_names(),
        a.played_characters@,
        tops.2,
    );
    let s3 = section(
        "\nOpponent character stats:"@,
        character_names(),
        a.opp_characters@,
        tops.3,
    );
    top_places_have_the_most_games(opponents, 50, tops.0);
    top_places_have_the_most_games(a.stages@, 33, tops.1);
    top_places_have_the_most_games(a.played_characters@, 33, tops.2);
    top_places_have_the_most_games(a.opp_characters@, 33, tops.3);
    let (n0, n1, n2) = (s0.len() as int, s1.len() as int, s2.len() as int);
    assert(r.len() == n0 + n1 + n2 + s3.len());
    assert forall|i: int| 0 <= i < 33 && (#[trigger] a.stages@[i]).total > 0 implies r.contains(
        LineView::Entry(known_name(stage_text(i)), a.stages@[i]),
    ) by {
        let k = lemma_top_of_table(a.stages@, 33, tops.1, i);
        assert(s1[k + 1] == LineView::Entry(stage_names()[i], a.stages@[i]));
        assert(r[n0 + k + 1] == s1[k + 1]);
    }
    assert forall|i: int| 0 <= i < 33 && (#[trigger] a.played_characters@[i]).total > 0 implies r.contains(
        LineView::Entry(known_name(character_text(i)), a.played_characters@[i]),
    ) by {
        let k = lemma_top_of_table(a.played_characters@, 33, tops.2, i);
        assert(s2[k + 1] == LineView::Entry(character_names()[i], a.played_characters@[i]));
        assert(r[n0 + n1 + k + 1] == s2[k + 1]);
    }
    assert forall|i: int| 0 <= i < 33 && (#[trigger] a.opp_characters@[i]).total > 0 implies r.contains(
        LineView::Entry(known_name(character_text(i)), a.opp_characters@[i]),
    ) by {
        let k = lemma_top_of_table(a.opp_characters@, 33, tops.3, i);
        assert(s3[k + 1] == LineView::Entry(character_names()[i], a.opp_characters@[i]));
        assert(r[n0 + n1 + n2 + k + 1] == s3[k + 1]);
    }
    if a.opponents.keys().len() <= 50 {
        let keys = a.opponents.keys();
        assert forall|i: int| 0 <= i < keys.len() && a.opponents@[#[trigger] keys[i]].total > 0 implies r.contains(
            LineView::Entry(keys[i], a.opponents@[keys[i]]),
        ) by {
            assert(opponents[i] == a.opponents@[keys[i]]);
            let k = lemma_top_of_table(opponents, 50, tops.0, i);
            assert(s0[k + 1] == LineView::Entry(keys[i], opponents[i]));
            assert(r[k + 1] == s0[k + 1]);
        }
    }
    assert forall|k: int| 0 <= k < r.len() implies (#[trigger] r[k] matches LineView::Entry(_, w)
        ==> w.total > 0) by {
        if k < n0 {
            assert(r[k] == s0[k]);
            assert(k > 0 ==> opponents[tops.0[k - 1] as int].total > 0);
        } else if k < n0 + n1 {
            let m = k - n0;
            assert(r[k] == s1[m]);
            assert(m > 0 ==> a.stages@[tops.1[m - 1] as int].total > 0);
        } else if k < n0 + n1 + n2 {
            let m = k - n0 - n1;
            assert(r[k] == s2[m]);
            assert(m > 0 ==> a.played_characters@[tops.2[m - 1] as int].total > 0);
        } else {
            let m = k - n0 - n1 - n2;
            assert(r[k] == s3[m]);
            assert(m > 0 ==> a.opp_characters@[tops.3[m - 1] as int].total > 0);
        }
    }
}

/// A list with room for every entry has every entry with games.
proof fn lemma_top_of_table(tallies: Seq<WinProportion>, n: int, top: Seq<usize>, i: int) -> (k: int)
    requires
        is_top(tallies, n, top),
        tallies.len() <= n <= 50,
        0 <= i < tallies.len(),
        tallies[i].total > 0,
    ensures
        0 <= k < top.len(),
        top[k] == i,
{
    let full = choose|full: Seq<usize>|
        #[trigger] is_ranking(tallies, full) && top == front(full, n);
    lemma_ranking_is_short(tallies, full);
    assert(full.contains(i as usize));
    let k = choose|k: int| 0 <= k < full.len() && full[k] == (i as usize);
    assert(top[k] == full[k]);
    k
}

proof fn lemma_ranking_is_short(tallies: Seq<WinProportion>, full: Seq<usize>)
    requires
        is_ranking(tallies, full),
    ensures
        full.len() <= tallies.len(),
{
    let places = full.map_values(|x: usize| x as int);
    assert(places.no_duplicates()) by {
        assert forall|a: int, b: int| 0 <= a < places.len() && 0 <= b < places.len() && a != b implies places[a]
            != places[b] by {
            if a < b {
                assert(full[a] != full[b]);
            } else {
                assert(full[b] != full[a]);
            }
        }
    }
    places.unique_seq_to_set();
    let all = vstd::set_lib::set_int_range(0, tallies.len() as int);
    vstd::set_lib::lemma_int_range(0, tallies.len() as int);
    assert(places.to_set().subset_of(all)) by {
        assert forall|x: int| places.to_set().contains(x) implies all.contains(x) by {
            let a = choose|a: int| 0 <= a < places.len() && places[a] == x;
            assert(full[a] < tallies.len());
        }
    }
    vstd::set_lib::lemma_len_subset(places.to_set(), all);
}

/// The opponent who is met most is one of the record, nobody is met more often,
/// and nobody is only where nobody was met.
pub proof fn the_most_met_opponent_is_met_most(
    f: Option<(String, i32)>,
    a: WinAnalytics,
    code: Seq<char>,
)
    requires
        is_most_met(f, a.opponents@),
    ensures
        f matches Some((c, n)) ==> games_against(a, c@) == n && n > 0 && games_against(a, code) <= n,
        f is None ==> games_against(a, code) <= 0,
{
}

/// Whether the character in a slot, where someone is in it, has a place in the
/// tables.
pub open spec fn is_listed(players: Seq<GamePlayer>, id: Option<i32>) -> bool {
    slot_facts(players, id) matches Some((_, character)) ==> 0 <= character < 33
}

/// Games whose players are all known can be counted exactly where they are not
/// too many, and every stage and every character in a slot has a place in the
/// tables.
pub proof fn games_in_the_tables_can_be_counted(games: Seq<Game>, players: Seq<GamePlayer>)
    requires
        first_missing(players, games) is None,
    ensures
        are_countable(games, players) <==> 4 * games.len() <= i32::MAX && forall|n: int|
            0 <= n < games.len() ==> 0 <= (#[trigger] games[n]).stage < 33 && is_listed(
                players,
                games[n].first,
            ) && is_listed(players, games[n].second) && is_listed(players, games[n].third)
                && is_listed(players, games[n].fourth),
{
    assert forall|i: int| 0 <= i < games.len() implies first_missing(
        players,
        #[trigger] games.take(i + 1),
    ) is None by {
        if first_missing(players, games.take(i + 1)) is Some {
            lemma_missing_stays(players, games, i + 1);
        }
    }
    assert forall|n: int| 0 <= n < games.len() implies (#[trigger] in_tables(players, games[n]) <==> 0
        <= games[n].stage < 33 && is_listed(players, games[n].first) && is_listed(
        players,
        games[n].second,
    ) && is_listed(players, games[n].third) && is_listed(players, games[n].fourth)) by {
        let slots = game_slots(players, games[n]);
        assert(slots[0] == slot_facts(players, games[n].first));
        assert(slots[1] == slot_facts(players, games[n].second));
        assert(slots[2] == slot_facts(players, games[n].third));
        assert(slots[3] == slot_facts(players, games[n].fourth));
    }
    if are_countable(games, players) {
        assert forall|n: int| 0 <= n < games.len() implies 0 <= (#[trigger] games[n]).stage < 33
            && is_listed(players, games[n].first) && is_listed(players, games[n].second) && is_listed(
            players,
            games[n].third,
        ) && is_listed(players, games[n].fourth) by {
            assert(first_missing(players, games.take(n + 1)) is None);
            assert(in_tables(players, games[n]));
        }
    }
}

} // verus!
