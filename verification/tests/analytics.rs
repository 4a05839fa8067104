use stats_melee::analytics::{
    analyze_games, argmax_winproportion, can_analyze, entry_text, get_character,
    get_game_player_code, top_opponent, top_tallies, winrate_text, ReportLine, UnknownPlayer, WinProportion,
};
use stats_melee::models::{Game, GamePlayer};

fn game(id: i32, slots: [Option<i32>; 4], stage: i32) -> Game {
    Game {
        id,
        first: slots[0],
        second: slots[1],
        third: slots[2],
        fourth: slots[3],
        stage,
        time: 100,
        ingested_at: String::new(),
        started_at: None,
        replay_path: None,
        content_hash: None,
    }
}

fn player(id: i32, code: &str, character: i32) -> GamePlayer {
    GamePlayer { id, code: code.to_string(), character, port: 0 }
}

fn roster() -> Vec<GamePlayer> {
    vec![
        player(1, "ME#1", 1),
        player(2, "ME#1", 20),
        player(3, "A#1", 9),
        player(4, "B#2", 9),
    ]
}

fn w(wins: i32, total: i32) -> WinProportion {
    WinProportion { wins, total }
}

#[test]
fn records_count_opponents_stages_and_characters() {
    let games = vec![
        game(1, [Some(1), Some(3), None, None], 31),
        game(2, [Some(3), Some(1), None, None], 31),
        game(3, [Some(2), Some(4), None, None], 2),
        game(4, [Some(4), Some(3), Some(1), None], 2),
    ];
    let a = analyze_games(&games, &roster(), "ME#1").expect("a record");
    assert_eq!(a.opponents.get("A#1"), Some(&w(1, 3)));
    assert_eq!(a.opponents.get("B#2"), Some(&w(1, 2)));
    assert_eq!(a.opponents.get("ME#1"), None);
    assert_eq!(a.stages[31], w(1, 2));
    assert_eq!(a.stages[2], w(1, 2));
    assert_eq!(a.stages[0], w(0, 0));
    assert_eq!(a.played_characters[1], w(1, 3));
    assert_eq!(a.played_characters[20], w(1, 1));
    assert_eq!(a.opp_characters[9], w(2, 5));
    let counted: i32 = a.stages.iter().map(|s| s.total).sum();
    assert_eq!(counted as usize, games.len());
}

#[test]
fn games_of_unknown_players_are_refused() {
    let games = vec![
        game(1, [Some(1), Some(3), None, None], 31),
        game(2, [Some(1), Some(77), Some(88), None], 31),
    ];
    assert_eq!(
        analyze_games(&games, &roster(), "ME#1").err(),
        Some(UnknownPlayer { id: 77 })
    );
    assert_eq!(get_game_player_code(&roster(), 3), Ok("A#1"));
    assert_eq!(get_character(&roster(), 2), Ok(20));
    assert_eq!(get_character(&roster(), 5), Err(UnknownPlayer { id: 5 }));
    assert_eq!(get_game_player_code(&roster(), 5), Err(UnknownPlayer { id: 5 }));
}

#[test]
fn no_games_make_an_empty_record() {
    let a = analyze_games(&vec![], &roster(), "ME#1").expect("a record");
    assert_eq!(a.opponents.len(), 0);
    assert!(a.stages.iter().all(|s| *s == WinProportion::new_winproportion()));
}

#[test]
fn the_most_played_come_first() {
    let t = [w(0, 2), w(0, 0), w(1, 5), w(0, 2), w(3, 3), w(0, -1)];
    assert_eq!(top_tallies(&t, 33), vec![2, 4, 0, 3]);
    assert_eq!(top_tallies(&t, 2), vec![2, 4]);
    assert_eq!(top_tallies(&[], 5), Vec::<usize>::new());
}

#[test]
fn of_two_favorites_the_last_counts() {
    assert_eq!(argmax_winproportion(&[w(0, 2), w(1, 5), w(2, 5), w(0, 1)]), Some((2, w(2, 5))));
    assert_eq!(argmax_winproportion(&[w(0, 0), w(0, 0)]), None);
    assert_eq!(argmax_winproportion(&[]), None);
}

#[test]
fn reports_have_four_sections() {
    let games = vec![
        game(1, [Some(1), Some(3), None, None], 31),
        game(2, [Some(3), Some(2), None, None], 2),
        game(3, [Some(1), Some(4), None, None], 2),
    ];
    let a = analyze_games(&games, &roster(), "ME#1").expect("a record");
    let mut text = String::new();
    for line in a.report() {
        match line {
            ReportLine::Heading(h) => text.push_str(h),
            ReportLine::Entry(name, t) => text.push_str(&format!("{name} {}/{}", t.wins, t.total)),
        }
        text.push('|');
    }
    assert_eq!(
        text,
        "Opponent stats (top 50 by total):|A#1 1/2|B#2 1/1|\
         \nStage stats:|FountainOfDreams 1/2|Battlefield 1/1|\
         \nPlayed character stats:|Fox 2/2|YoungLink 0/1|\
         \nOpponent character stats:|Peach 2/3|"
    );
}

#[test]
fn report_entries_read_in_full() {
    assert_eq!(
        entry_text("Fox", "66.67", w(2, 3)),
        "  Fox -- 66.67% winrate, 2 wins, 3 total"
    );
}

#[test]
fn favorites_are_what_is_done_most() {
    let games: Vec<Game> = (0..3).map(|i| game(i, [Some(1), Some(3), None, None], 31)).collect();
    let a = analyze_games(&games, &roster(), "ME#1").unwrap();
    let f = a.favorites();
    assert_eq!(f.character, Some((1, 3)));
    assert_eq!(f.stage, Some((31, 3)));
    assert_eq!(f.faced, Some((9, 3)));
    assert_eq!(f.opponent, Some(("A#1".to_string(), 3)));
    let nothing = analyze_games(&vec![], &roster(), "ME#1").unwrap();
    assert_eq!(nothing.favorites().character, None);
    assert_eq!(top_opponent(&nothing.opponents), None);
}

#[test]
fn breakdown_rows_read_in_full() {
    assert_eq!(winrate_text("67", w(2, 3)), "67%  2-1");
}

#[test]
fn games_outside_the_tables_cannot_be_counted() {
    let mut players = roster();
    assert!(can_analyze(&vec![game(1, [Some(1), Some(3), None, None], 32)], &players));
    assert!(!can_analyze(&vec![game(1, [Some(1), None, None, None], 33)], &players));
    assert!(!can_analyze(&vec![game(1, [Some(1), None, None, None], -1)], &players));
    players.push(player(5, "C#3", 33));
    assert!(!can_analyze(&vec![game(1, [Some(1), Some(5), None, None], 2)], &players));
    // A player that no game names does no harm, nor does what follows a game
    // with an unknown player.
    assert!(can_analyze(&vec![game(1, [Some(1), Some(3), None, None], 2)], &players));
    let unknown = game(1, [Some(9), None, None, None], 2);
    let outside = game(2, [Some(5), None, None, None], 99);
    assert!(can_analyze(&vec![unknown, outside], &players));
}
