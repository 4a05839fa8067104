use stats_melee::library::{
    character_label, date_in_range, is_suggestion, library_filtered_game_ids,
    library_ingested_date_ordinals, library_opponent_codes, library_played_date_ordinals,
    sort_key_label, sorted_distinct, stage_label, tag_hits, tag_suggestions, visible_rows,
    LibraryFilter, OutcomeFilter,
};
use stats_melee::replay_list::{PlayerSlot, ReplayRow, SortKey};

fn slot(code: &str, character_id: i32) -> Option<PlayerSlot> {
    Some(PlayerSlot { code: code.to_string(), character_id })
}

fn row(id: i32, stage: i32, won: Option<bool>, played: Option<&str>) -> ReplayRow {
    ReplayRow {
        game_id: id,
        slots: [slot("ME#1", 1), slot("Opp#2", 22), None, None],
        stage_id: stage,
        duration_seconds: 100,
        user_won: won,
        ingested_at: format!("2026-04-0{} 10:00:00", id),
        played_at: played.map(|s| s.to_string()),
    }
}

fn rows() -> Vec<ReplayRow> {
    vec![
        row(1, 31, Some(true), Some("2026-01-01T00:00:00Z")),
        row(2, 2, Some(false), Some("2026-02-01T00:00:00Z")),
        row(3, 31, None, None),
    ]
}

fn ids(f: &LibraryFilter, user: &str) -> Vec<i32> {
    library_filtered_game_ids(f, &rows(), user)
}

#[test]
fn a_clear_filter_shows_everything() {
    let f = LibraryFilter::cleared();
    assert!(!f.structured_filter_active());
    assert_eq!(ids(&f, "ME#1"), vec![1, 2, 3]);
    assert_eq!(visible_rows(&f, &rows(), ""), vec![0, 1, 2]);
    assert_eq!(f.filter_description(), "Your whole history");
}

#[test]
fn characters_are_told_apart_by_the_user() {
    let mut f = LibraryFilter::cleared();
    f.character = Some(1);
    assert_eq!(ids(&f, "ME#1").len(), 3);
    f.character = Some(22);
    assert_eq!(ids(&f, "ME#1").len(), 0);
    // Without a user any slot will do.
    assert_eq!(ids(&f, "  ").len(), 3);
    let mut g = LibraryFilter::cleared();
    g.opp_character = Some(22);
    assert_eq!(ids(&g, " ME#1 ").len(), 3);
    g.opp_character = Some(1);
    assert_eq!(ids(&g, "ME#1").len(), 0);
}

#[test]
fn stages_and_outcomes_narrow_the_list() {
    let mut f = LibraryFilter::cleared();
    f.stage = Some(31);
    assert_eq!(ids(&f, "ME#1"), vec![1, 3]);
    f.outcome = OutcomeFilter::Wins;
    assert_eq!(ids(&f, "ME#1"), vec![1]);
    f.stage = None;
    f.outcome = OutcomeFilter::Losses;
    assert_eq!(ids(&f, "ME#1"), vec![2]);
    assert_eq!(visible_rows(&f, &rows(), "ME#1"), vec![1]);
    assert_eq!(OutcomeFilter::Losses.label(), "Losses");
}

#[test]
fn tags_match_opponents_in_either_case() {
    let mut f = LibraryFilter::cleared();
    f.opponent_tag = " oPP ".to_string();
    assert_eq!(ids(&f, "ME#1").len(), 3);
    f.opponent_tag = "me#".to_string();
    assert_eq!(ids(&f, "ME#1").len(), 0);
    assert_eq!(ids(&f, "").len(), 3);
    assert!(tag_hits("opp#2", "p#"));
    assert!(!tag_hits("opp#2", "P#"));
}

#[test]
fn date_ranges_count_their_ends() {
    let mut f = LibraryFilter::cleared();
    f.date_from = "2026-01-01".to_string();
    f.date_to = "2026-01-01".to_string();
    assert_eq!(ids(&f, "ME#1"), vec![1]);
    f.date_to = String::new();
    // An undated row lies in no range.
    assert_eq!(ids(&f, "ME#1"), vec![1, 2]);
    let mut g = LibraryFilter::cleared();
    g.added_from = "2026-04-02".to_string();
    assert_eq!(ids(&g, "ME#1"), vec![2, 3]);
    g.added_to = "2026-04-02".to_string();
    assert_eq!(ids(&g, "ME#1"), vec![2]);
    assert!(date_in_range(None, " ", ""));
    assert!(!date_in_range(None, "", "2026"));
}

#[test]
fn date_ranges_go_by_day() {
    let inside = |d: &str| date_in_range(Some(d), "2024-02-29", "2025-01-01");
    assert!(!inside("2024-02-28"));
    assert!(inside("2024-02-29"));
    assert!(inside("2024-03-01"));
    assert!(inside("2024-12-31"));
    assert!(inside("2025-01-01"));
    assert!(!inside("2025-01-02"));
    assert!(!inside("0999-12-31"));
}

#[test]
fn rows_without_an_outcome_or_a_date_are_hidden() {
    let mut f = LibraryFilter::cleared();
    f.outcome = OutcomeFilter::Wins;
    assert_eq!(ids(&f, "ME#1"), vec![1]);
    f.outcome = OutcomeFilter::Losses;
    assert_eq!(ids(&f, "ME#1"), vec![2]);
    let mut g = LibraryFilter::cleared();
    g.date_from = "1970-01-01".to_string();
    assert_eq!(ids(&g, "ME#1"), vec![1, 2]);
}

#[test]
fn filters_read_as_words() {
    let mut f = LibraryFilter::cleared();
    f.character = Some(1);
    f.opp_character = Some(22);
    f.stage = Some(31);
    f.outcome = OutcomeFilter::Wins;
    assert_eq!(f.filter_description(), "Fox · vs Falco · Battlefield · Wins");
    f = LibraryFilter::cleared();
    f.opponent_tag = " abc ".to_string();
    f.date_from = "2026-01-01".to_string();
    f.added_to = "2026-02-02".to_string();
    assert_eq!(
        f.filter_description(),
        "vs abc · played 2026-01-01–… · added …–2026-02-02"
    );
}

#[test]
fn labels_never_fail() {
    assert_eq!(character_label(None), "Any");
    assert_eq!(character_label(Some(2)), "Captain Falcon");
    assert_eq!(character_label(Some(99)), "char #99");
    assert_eq!(character_label(Some(-1)), "char #-1");
    assert_eq!(stage_label(Some(20)), "Mushroom Kingdom II");
    assert_eq!(stage_label(Some(33)), "stage #33");
    assert_eq!(stage_label(None), "Any");
    assert_eq!(sort_key_label(SortKey::IngestedAt), "Newest (added)");
    assert_eq!(sort_key_label(SortKey::Outcome), "Outcome");
}

#[test]
fn summary_keys_pass_over_white_space() {
    let mut f = LibraryFilter::cleared();
    f.date_from = " 2026".to_string();
    let mut g = LibraryFilter::cleared();
    g.date_from = "2026 ".to_string();
    assert!(f.summary_key("ME#1").equals(&g.summary_key("ME#1")));
    assert!(!f.summary_key("ME#1").equals(&g.summary_key("ME#2")));
    g.stage = Some(2);
    assert!(!f.summary_key("ME#1").equals(&g.summary_key("ME#1")));
}

#[test]
fn dates_become_day_numbers() {
    assert_eq!(library_played_date_ordinals(&rows()), vec![20454, 20485]);
    assert_eq!(library_ingested_date_ordinals(&rows()), vec![20544, 20545, 20546]);
}

#[test]
fn opponents_are_listed_once_in_order() {
    let mut all = rows();
    all[0].slots[1] = slot("b", 0);
    all[1].slots[2] = slot("", 0);
    all[2].slots[3] = slot("a", 0);
    assert_eq!(library_opponent_codes(&all, "ME#1"), vec!["Opp#2", "a", "b"]);
    assert_eq!(library_opponent_codes(&all, ""), vec!["ME#1", "Opp#2", "a", "b"]);
    let list: Vec<String> = ["b", "a", "b", "é", "B", "a"].iter().map(|s| s.to_string()).collect();
    assert_eq!(sorted_distinct(&list), vec!["B", "a", "b", "é"]);
}

#[test]
fn suggestions_hold_more_than_was_typed() {
    let codes: Vec<String> = ["AB#1", "ab", "CAB", "x", "ABC", "DAB", "EAB", "FAB", "GAB"]
        .iter()
        .map(|s| s.to_string())
        .collect();
    assert_eq!(
        tag_suggestions(&codes, " aB "),
        vec!["AB#1", "CAB", "ABC", "DAB", "EAB", "FAB"]
    );
    assert!(tag_suggestions(&codes, "  ").is_empty());
    assert!(is_suggestion("abc", "ab"));
    assert!(!is_suggestion("ab", "ab"));
    assert!(!is_suggestion("abc", "AB"));
}
