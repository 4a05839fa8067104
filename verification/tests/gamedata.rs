use stats_melee::gamedata::{
    attack_display_name, character_name, spaced_name, stage_name, started_at, AttackName,
    GameData, GameDataError, Port, Replay, SlippiPlayer, NUM_CHARACTERS, NUM_STAGES,
};
use stats_melee::json::{parse_json, Json};

fn metadata(text: &str) -> Json {
    parse_json(text.as_bytes()).expect("JSON")
}

const TWO: &str = r#"{"players":{
    "0":{"names":{"netplay":"Frank","code":"FRNK#948"},"characters":{"7":100,"18":900}},
    "1":{"names":{"netplay":"Bisc","code":"BISC#223"},"characters":{"1":1000}}
}}"#;

#[test]
fn players_are_read_from_the_metadata() {
    let m = metadata(TWO);
    let p = SlippiPlayer::new_slippi_player(&m, Port::P0).expect("a player");
    assert_eq!(p.netplay(), "Frank");
    assert_eq!(p.code(), "FRNK#948");
    assert_eq!(p.character(), 18);
    assert_eq!(p.port(), Port::P0);
    let q = SlippiPlayer::new_slippi_player(&m, Port::P1).expect("a player");
    assert_eq!(q.character(), 1);
    assert!(SlippiPlayer::new_slippi_player(&m, Port::P2).is_none());
}

#[test]
fn the_first_character_with_the_most_frames_counts() {
    let m = metadata(
        r#"{"players":{"3":{"names":{"netplay":"","code":"A"},"characters":{"9":5,"2":70,"1":70}}}}"#,
    );
    let p = SlippiPlayer::new_slippi_player(&m, Port::P3).expect("a player");
    assert_eq!(p.character(), 2);
    assert_eq!(p.netplay(), "");
}

#[test]
fn incomplete_players_are_left_out() {
    for text in [
        r#"{"players":{"0":{"names":{"netplay":"x"},"characters":{"1":5}}}}"#,
        r#"{"players":{"0":{"names":{"netplay":4,"code":"x"},"characters":{"1":5}}}}"#,
        r#"{"players":{"0":{"names":{"netplay":"x","code":"x"}}}}"#,
        r#"{"players":{"0":{"names":{"netplay":"x","code":"x"},"characters":[1]}}}"#,
        r#"{"players":{"0":{"names":{"netplay":"x","code":"x"},"characters":{}}}}"#,
        r#"{"players":{"0":{"names":{"netplay":"x","code":"x"},"characters":{"1":0}}}}"#,
        r#"{"players":{"0":{"names":{"netplay":"x","code":"x"},"characters":{"1":5,"2":-1}}}}"#,
        r#"{"players":{"0":{"names":{"netplay":"x","code":"x"},"characters":{"fox":5}}}}"#,
        r#"{"players":{"0":{"names":{"netplay":"x","code":"x"},"characters":{"2147483648":5}}}}"#,
        r#"{"players":7}"#,
    ] {
        let m = metadata(text);
        assert!(SlippiPlayer::new_slippi_player(&m, Port::P0).is_none(), "{text}");
    }
}

#[test]
fn games_hold_their_players_stage_and_length() {
    let replay = Replay { metadata: Some(metadata(TWO)), stage: 31, frames: 7259 };
    let g = GameData::new_gamedata(&replay).expect("a game");
    assert_eq!(g.stage(), 31);
    assert_eq!(g.time(), 118);
    assert_eq!(g.placements()[0].as_ref().unwrap().code(), "FRNK#948");
    assert_eq!(g.placements()[1].as_ref().unwrap().code(), "BISC#223");
    assert!(g.placements()[2].is_none());
    assert!(g.placements()[3].is_none());
}

#[test]
fn games_without_metadata_or_with_endless_frames_are_refused() {
    let none = Replay { metadata: None, stage: 2, frames: 60 };
    let e = GameData::new_gamedata(&none).unwrap_err();
    assert_eq!(e, GameDataError::NoMetadata);
    assert_eq!(e.message(), "no metadata found");
    let endless = Replay { metadata: Some(metadata(TWO)), stage: 2, frames: usize::MAX };
    let e = GameData::new_gamedata(&endless).unwrap_err();
    assert_eq!(e, GameDataError::BadLength);
    assert_eq!(e.message(), "can't parse game length");
    assert_eq!(GameData::game_len(&none), Ok(0));
}

#[test]
fn the_frames_before_a_game_do_not_count() {
    let length = |frames| GameData::game_len(&Replay { metadata: None, stage: 2, frames });
    assert_eq!(length(0), Ok(0));
    assert_eq!(length(123), Ok(0));
    assert_eq!(length(182), Ok(0));
    assert_eq!(length(183), Ok(1));
    assert_eq!(length(7323), Ok(120));
}

#[test]
fn names_stand_in_their_tables() {
    assert_eq!(character_name(0), Some("Mario"));
    assert_eq!(character_name(22), Some("Falco"));
    assert_eq!(character_name(32), Some("Sandbag"));
    assert_eq!(character_name(33), None);
    assert_eq!(character_name(-1), None);
    assert_eq!(stage_name(0), Some("Dummy"));
    assert_eq!(stage_name(28), Some("DreamLandN64"));
    assert_eq!(stage_name(32), Some("FinalDestination"));
    assert_eq!(stage_name(33), None);
    assert_eq!((NUM_STAGES, NUM_CHARACTERS), (33, 33));
}

#[test]
fn names_are_spaced_at_capitals() {
    assert_eq!(spaced_name("CaptainFalcon"), "Captain Falcon");
    assert_eq!(spaced_name("MushroomKingdomII"), "Mushroom Kingdom II");
    assert_eq!(spaced_name("DreamLandN64"), "Dream Land N64");
    assert_eq!(spaced_name("Fox"), "Fox");
    assert_eq!(spaced_name(""), "");
}

#[test]
fn ports_have_numbers() {
    assert_eq!(Port::P3.number(), 3);
    assert_eq!(Port::from_number(2), Some(Port::P2));
    assert_eq!(Port::from_number(4), None);
    assert_eq!(Port::P1.text(), "1");
}

#[test]
fn attacks_without_a_name_have_a_number() {
    let names = vec![
        AttackName { id: 11, name: "forward smash".to_string() },
        AttackName { id: 11, name: "other".to_string() },
    ];
    assert_eq!(attack_display_name(&names, 11), "forward smash");
    assert_eq!(attack_display_name(&names, -4), "attack #-4");
}

#[test]
fn games_say_when_they_were_played() {
    let at = |text| {
        started_at(&Replay { metadata: Some(metadata(text)), stage: 2, frames: 0 })
    };
    assert_eq!(
        at(r#"{"startAt":"2025-04-01T14:39:10Z"}"#).as_deref(),
        Some("2025-04-01T14:39:10Z")
    );
    assert_eq!(at(r#"{"startAt":7}"#), None);
    assert_eq!(at("{}"), None);
    assert_eq!(started_at(&Replay { metadata: None, stage: 2, frames: 0 }), None);
}
