//! The rows that the database holds.
use vstd::prelude::*;

verus! {

/// A game. Its players are named by slot, in the order in which they placed.
#[derive(Debug)]
pub struct Game {
    pub id: i32,
    pub first: Option<i32>,
    pub second: Option<i32>,
    pub third: Option<i32>,
    pub fourth: Option<i32>,
    pub stage: i32,
    pub time: i32,
    /// When the row was written, as `YYYY-MM-DD HH:MM:SS`.
    pub ingested_at: String,
    /// When the game was played, where the replay told it.
    pub started_at: Option<String>,
    /// Where the replay lies, where that was recorded.
    pub replay_path: Option<String>,
    /// The hash of the replay, where that was recorded.
    pub content_hash: Option<String>,
}

/// Someone who plays, by connect code.
pub struct Player {
    pub netplay: String,
    pub code: String,
}

/// A player with a character, at a port.
pub struct GamePlayer {
    pub id: i32,
    pub code: String,
    pub character: i32,
    pub port: i32,
}

pub struct Stage {
    pub id: i32,
    pub name: String,
}

pub struct Character {
    pub id: i32,
    pub name: String,
}

/// A player to be written.
pub struct NewPlayer<'a> {
    pub code: &'a str,
    pub netplay: &'a str,
}

/// A player with a character, to be written.
pub struct NewGamePlayer<'a> {
    pub code: &'a str,
    pub character: i32,
    pub port: i32,
}

/// A game to be written.
pub struct NewGame {
    pub first: Option<i32>,
    pub second: Option<i32>,
    pub third: Option<i32>,
    pub fourth: Option<i32>,
    pub stage: i32,
    pub time: i32,
}

pub struct NewStage {
    pub id: i32,
    pub name: String,
}

pub struct NewCharacter {
    pub id: i32,
    pub name: String,
}

/// A string of hits that one player landed on another.
#[derive(Debug, Clone)]
pub struct Punish {
    pub id: i32,
    pub game_id: i32,
    /// The `GamePlayer` who landed the hits.
    pub attacker_id: i32,
    pub victim_id: i32,
    pub start_frame: i32,
    pub end_frame: i32,
    pub hit_count: i32,
    /// Not zero where the last hit took a stock.
    pub did_kill: i32,
    /// The move that took the stock, where one did.
    pub kill_move: Option<i32>,
}

impl Punish {
    pub open spec fn kills(self) -> bool {
        self.did_kill != 0
    }

    /// Whether the last hit took a stock.
    pub fn did_kill_bool(&self) -> (r: bool)
        ensures
            r == self.kills(),
    {
        self.did_kill != 0
    }
}

} // verus!
