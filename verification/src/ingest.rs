//! Which replays are read, and what is written of them.
use vstd::prelude::*;
use crate::gamedata::{GameData, SlippiPlayer};
use crate::models::{NewCharacter, NewGame, NewGamePlayer, NewPlayer, NewStage};
use crate::text::{begins_with, decimal_text, push_decimal, same, starts_with, trim_end, trimmed_end};

verus! {

broadcast use vstd::string::group_string_axioms;

/// Whether a directory holds no replays, by its name: the program's own
/// directories, and hidden ones.
pub open spec fn is_passed_over(name: Seq<char>) -> bool {
    ||| name == "target"@
    ||| name == "src"@
    ||| name == "migrations"@
    ||| name == "stats-melee"@
    ||| begins_with(name, "."@)
}

/// Whether a directory holds no replays, by its name.
pub fn passes_over(name: &str) -> (r: bool)
    ensures
        r == is_passed_over(name@),
{
    same(name, "target") || same(name, "src") || same(name, "migrations") || same(
        name,
        "stats-melee",
    ) || starts_with(name, ".")
}

/// Whether a directory counts for nothing in the play time, by its name.
pub open spec fn is_left_out(name: Seq<char>) -> bool {
    name == "target"@ || name == "src"@ || begins_with(name, "."@)
}

/// Whether a directory counts for nothing in the play time, by its name.
pub fn leaves_out(name: &str) -> (r: bool)
    ensures
        r == is_left_out(name@),
{
    same(name, "target") || same(name, "src") || starts_with(name, ".")
}

/// Whether a directory is looked into for new replays.
pub open spec fn is_directory_due(games_empty: bool, modified: int, db_modified: int) -> bool {
    games_empty || modified >= db_modified
}

/// Whether a directory is looked into for new replays: it was changed no
/// earlier than the database, or no game is known yet. Times are in
/// nanoseconds.
pub fn directory_is_due(games_empty: bool, modified: i128, db_modified: i128) -> (r: bool)
    ensures
        r == is_directory_due(games_empty, modified as int, db_modified as int),
{
    games_empty || modified >= db_modified
}

/// Whether a replay is new.
pub open spec fn is_replay_due(games_empty: bool, created: int, db_modified: int) -> bool {
    games_empty || created > db_modified
}

/// Whether a replay is new: it came after the database was last changed, or no
/// game is known yet.
pub fn replay_is_due(games_empty: bool, created: i128, db_modified: i128) -> (r: bool)
    ensures
        r == is_replay_due(games_empty, created as int, db_modified as int),
{
    games_empty || created > db_modified
}

/// Whether a count of games says that there are none.
pub fn is_games_empty(count: i64) -> (r: bool)
    ensures
        r == (count == 0),
{
    count == 0
}

/// The player to be written.
pub fn post_player<'a>(p: &'a SlippiPlayer) -> (r: NewPlayer<'a>)
    ensures
        r.netplay@ == p.netplay@,
        r.code@ == p.code@,
{
    NewPlayer { netplay: p.netplay(), code: p.code() }
}

/// The player and their character, to be written.
pub fn post_game_player<'a>(p: &'a SlippiPlayer) -> (r: NewGamePlayer<'a>)
    ensures
        r.code@ == p.code@,
        r.character == p.character,
        r.port == p.port.index(),
{
    NewGamePlayer { code: p.code(), character: p.character(), port: p.port().number() }
}

/// The game to be written. `ids` are the rows of its players, in order; a slot
/// without a player, or whose player could not be written, has none.
pub fn post_game(gamedata: &GameData, ids: [Option<i32>; 4]) -> (r: NewGame)
    ensures
        r.first == ids@[0],
        r.second == ids@[1],
        r.third == ids@[2],
        r.fourth == ids@[3],
        r.stage == gamedata.stage,
        r.time == gamedata.time,
{
    NewGame {
        first: ids[0],
        second: ids[1],
        third: ids[2],
        fourth: ids[3],
        stage: gamedata.stage(),
        time: gamedata.time(),
    }
}

/// The stage to be written.
pub fn post_stage(id: i32, name: String) -> (r: NewStage)
    ensures
        r.id == id,
        r.name@ == name@,
{
    NewStage { id, name }
}

/// The character to be written.
pub fn post_character(id: i32, name: String) -> (r: NewCharacter)
    ensures
        r.id == id,
        r.name@ == name@,
{
    NewCharacter { id, name }
}

/// What the user answered: the line without the white space at its end.
pub fn prompt_answer(line: &str) -> (r: String)
    ensures
        r@ == trimmed_end(line@),
{
    trim_end(line).to_owned()
}

/// The seconds of some games, by their frames: each game counts its whole
/// seconds.
pub open spec fn playtime_of(frames: Seq<usize>) -> int
    decreases frames.len(),
{
    if frames.len() == 0 {
        0
    } else {
        playtime_of(frames.drop_last()) + frames.last() / 60
    }
}

proof fn lemma_playtime_grows(frames: Seq<usize>, n: int)
    requires
        0 <= n <= frames.len(),
    ensures
        0 <= playtime_of(frames.take(n)) <= playtime_of(frames),
    decreases frames.len() - n,
{
    if n < frames.len() {
        lemma_playtime_grows(frames, n + 1);
        assert(frames.take(n + 1).drop_last() =~= frames.take(n));
        lemma_playtime_is_natural(frames.take(n));
    } else {
        assert(frames.take(n) =~= frames);
        lemma_playtime_is_natural(frames);
    }
}

proof fn lemma_playtime_is_natural(frames: Seq<usize>)
    ensures
        0 <= playtime_of(frames),
    decreases frames.len(),
{
    if frames.len() > 0 {
        lemma_playtime_is_natural(frames.drop_last());
    }
}

/// The seconds of some games, by their frames.
pub fn total_playtime(frames: &Vec<usize>) -> (r: usize)
    requires
        playtime_of(frames@) <= usize::MAX,
    ensures
        r == playtime_of(frames@),
{
    let mut total: usize = 0;
    let mut i: usize = 0;
    assert(frames@.take(0) =~= seq![]);
    while i < frames.len()
        invariant
            i <= frames.len(),
            playtime_of(frames@) <= usize::MAX,
            total == playtime_of(frames@.take(i as int)),
        decreases frames.len() - i,
    {
        proof {
            assert(frames@.take(i + 1).drop_last() =~= frames@.take(i as int));
            lemma_playtime_grows(frames@, i + 1);
        }
        total = total + frames[i] / 60;
        i += 1;
    }
    assert(frames@.take(i as int) =~= frames@);
    total
}

/// A play time as hours, minutes and seconds.
pub open spec fn playtime_words(seconds: nat) -> Seq<char> {
    "total playtime: "@ + decimal_text(seconds / 3600) + ":"@ + decimal_text(seconds / 60 % 60)
        + ":"@ + decimal_text(seconds % 60)
}

/// A play time as hours, minutes and seconds.
pub fn playtime_line(seconds: usize) -> (r: String)
    ensures
        r@ == playtime_words(seconds as nat),
{
    let minutes: usize = seconds / 60;
    let hours: usize = minutes / 60;
    assert(hours == seconds / 3600);
    let mut out = "total playtime: ".to_owned();
    push_decimal(&mut out, hours as u128);
    out.append(":");
    push_decimal(&mut out, (minutes % 60) as u128);
    out.append(":");
    push_decimal(&mut out, (seconds % 60) as u128);
    out
}

// ------------------------------------------------------------------------ laws

/// What counts for nothing in the play time holds no replays either; a hidden
/// directory is passed over by both, whatever its name.
pub proof fn hidden_directories_are_passed_over(name: Seq<char>)
    ensures
        is_left_out(name) ==> is_passed_over(name),
        is_passed_over(name) && !is_left_out(name) ==> name == "migrations"@ || name == "stats-melee"@,
        name.len() > 0 && name[0] == '.' ==> is_left_out(name) && is_passed_over(name),
{
    reveal_strlit(".");
    if name.len() > 0 && name[0] == '.' {
        assert(name.subrange(0, 1) =~= "."@);
    }
}

/// The play time of some games and some more is that of both together, and a
/// game counts its whole seconds.
pub proof fn play_times_add_up(xs: Seq<usize>, ys: Seq<usize>, frames: usize)
    ensures
        playtime_of(xs + ys) == playtime_of(xs) + playtime_of(ys),
        60 * playtime_of(seq![frames]) <= frames < 60 * (playtime_of(seq![frames]) + 1),
        playtime_of(seq![]) == 0,
    decreases ys.len(),
{
    reveal_with_fuel(playtime_of, 2);
    assert(seq![frames].drop_last() =~= Seq::<usize>::empty());
    assert(seq![frames].last() == frames);
    if ys.len() > 0 {
        play_times_add_up(xs, ys.drop_last(), frames);
        assert((xs + ys).drop_last() =~= xs + ys.drop_last());
        assert((xs + ys).last() == ys.last());
    } else {
        assert(xs + ys =~= xs);
    }
}

/// A play time is written as hours, and minutes and seconds below sixty, that
/// make it up.
pub proof fn play_times_are_written_whole(h: nat, m: nat, s: nat)
    requires
        m < 60,
        s < 60,
    ensures
        playtime_words(3600 * h + 60 * m + s) == "total playtime: "@ + decimal_text(h) + ":"@
            + decimal_text(m) + ":"@ + decimal_text(s),
{
    let t = (3600 * h + 60 * m + s) as int;
    assert(t / 3600 == h && t / 60 % 60 == m && t % 60 == s);
}

/// Without a known game everything is read. Otherwise what came later is read
/// wherever what came earlier is; a new replay makes its directory due; and at
/// the very instant of the last change the directory is looked into, but a
/// replay is not read again.
pub proof fn later_replays_are_due(modified: int, later: int, db_modified: int)
    requires
        modified <= later,
    ensures
        is_directory_due(true, modified, db_modified) && is_replay_due(true, modified, db_modified),
        is_directory_due(false, modified, db_modified) ==> is_directory_due(false, later, db_modified),
        is_replay_due(false, modified, db_modified) ==> is_replay_due(false, later, db_modified),
        is_replay_due(false, modified, db_modified) ==> is_directory_due(false, modified, db_modified),
        is_directory_due(false, db_modified, db_modified),
        !is_replay_due(false, db_modified, db_modified),
        later < db_modified ==> !is_directory_due(false, later, db_modified),
        db_modified < modified ==> is_replay_due(false, modified, db_modified),
{
}

} // verus!
