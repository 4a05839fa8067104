//! Statistics for Super Smash Bros. Melee replays.
use vstd::prelude::*;

pub mod analytics;
pub mod app;
pub mod app_icon;
pub mod config;
pub mod dates;
pub mod gamedata;
pub mod icons;
pub mod ingest;
pub mod json;
pub mod library;
pub mod models;
pub mod order;
pub mod pages;
pub mod paths;
pub mod render_worker;
pub mod replay_list;
pub mod slippi;
pub mod slippi_icons;
pub mod text;
pub mod textmap;
pub mod viewer;

pub use crate::analytics::{analyze_games, get_character, get_game_player_code};
pub use crate::gamedata::{NUM_CHARACTERS, NUM_STAGES};
pub use crate::ingest::{
    is_games_empty, post_character, post_game, post_game_player, post_player, post_stage,
};

verus! {

} // verus!
