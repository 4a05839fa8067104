//! The filter of the replay library, which the statistics share.
use vstd::prelude::*;
use crate::dates::{
    date_text, date_to_ordinal, day_number, front, is_date, lemma_dates_are_trimmed, text_ordinal,
    written_dates_sort_by_day,
};
use crate::gamedata::{
    character_name, character_text, spaced, spaced_name, stage_name, stage_text,
};
use crate::order::{first_of, lists_in_order, stable_order, Ranking};
use crate::replay_list::{first_ten, slot_view, PlayerSlot, ReplayRow, SortKey};
use crate::text::{
    blank_text_is_white, contains, contains_text, held_text_is_a_part, integer_text, is_white,
    lemma_precedes_irreflexive, lemma_precedes_total, lemma_precedes_transitive, less,
    lowercase_text, precedes, push_integer, same, text_holds_its_parts, texts, to_lowercase, trim,
    trimmed,
};

verus! {

broadcast use vstd::string::group_string_axioms;

/// Which outcomes are shown.
#[derive(Debug, Clone, Copy, PartialEq, Eq, Structural)]
pub enum OutcomeFilter {
    All,
    Wins,
    Losses,
}

impl OutcomeFilter {
    pub open spec fn text(self) -> Seq<char> {
        match self {
            OutcomeFilter::All => "All"@,
            OutcomeFilter::Wins => "Wins"@,
            OutcomeFilter::Losses => "Losses"@,
        }
    }

    pub fn label(self) -> (r: &'static str)
        ensures
            r@ == self.text(),
    {
        match self {
            OutcomeFilter::All => "All",
            OutcomeFilter::Wins => "Wins",
            OutcomeFilter::Losses => "Losses",
        }
    }
}

/// What the library is narrowed to. Every part that is set must hold.
#[derive(Debug)]
pub struct LibraryFilter {
    /// The user's character.
    pub character: Option<i32>,
    /// An opponent's character.
    pub opp_character: Option<i32>,
    pub stage: Option<i32>,
    pub outcome: OutcomeFilter,
    /// The first and the last date of play, as `YYYY-MM-DD`; blank for no limit.
    pub date_from: String,
    pub date_to: String,
    /// The first and the last date on which a row was written.
    pub added_from: String,
    pub added_to: String,
    /// Part of an opponent's code, in either case.
    pub opponent_tag: String,
}

/// Whether some slot has a character and, where a user is set, is (`mine`) or
/// is not the user's.
pub open spec fn has_character(r: ReplayRow, c: i32, user: Option<Seq<char>>, mine: bool) -> bool {
    exists|k: int| #[trigger] is_pick(r, k, c, user, mine)
}

pub open spec fn is_pick(r: ReplayRow, k: int, c: i32, user: Option<Seq<char>>, mine: bool) -> bool {
    0 <= k < 4 && (slot_view(r.slots@[k]) matches Some((code, x)) && x == c && (user matches Some(u)
        ==> (code == u) == mine))
}

/// Whether slot `k` is an opponent whose code holds `tag` in lower case.
pub open spec fn is_tagged(r: ReplayRow, k: int, tag: Seq<char>, user: Option<Seq<char>>) -> bool {
    0 <= k < 4 && (slot_view(r.slots@[k]) matches Some((code, _)) && (user matches Some(u) ==> code
        != u) && contains_text(lowercase_text(code), tag))
}

pub open spec fn has_tag(r: ReplayRow, tag: Seq<char>, user: Option<Seq<char>>) -> bool {
    exists|k: int| #[trigger] is_tagged(r, k, tag, user)
}

/// Whether a date lies in a range whose ends count; a blank end is no limit,
/// and a row without a date lies in no range that has one.
pub open spec fn in_range(date: Option<Seq<char>>, from: Seq<char>, to: Seq<char>) -> bool {
    let (a, b) = (trimmed(from), trimmed(to));
    if a.len() == 0 && b.len() == 0 {
        true
    } else {
        match date {
            Some(d) => (a.len() == 0 || !precedes(d, a)) && (b.len() == 0 || !precedes(b, d)),
            None => false,
        }
    }
}

impl LibraryFilter {
    /// Whether a row is shown.
    pub open spec fn shows(self, r: ReplayRow, user: Option<Seq<char>>) -> bool {
        &&& self.character matches Some(c) ==> has_character(r, c, user, true)
        &&& self.opp_character matches Some(c) ==> has_character(r, c, user, false)
        &&& self.stage matches Some(s) ==> r.stage_id == s
        &&& match self.outcome {
            OutcomeFilter::All => true,
            OutcomeFilter::Wins => r.user_won == Some(true),
            OutcomeFilter::Losses => r.user_won == Some(false),
        }
        &&& trimmed(self.opponent_tag@).len() == 0 || has_tag(
            r,
            lowercase_text(trimmed(self.opponent_tag@)),
            user,
        )
        &&& in_range(r.played_text(), self.date_from@, self.date_to@)
        &&& in_range(first_ten(r.ingested_at@), self.added_from@, self.added_to@)
    }

    /// Whether any part is set.
    pub open spec fn is_active(self) -> bool {
        ||| self.character is Some
        ||| self.opp_character is Some
        ||| self.stage is Some
        ||| self.outcome != OutcomeFilter::All
        ||| trimmed(self.date_from@).len() > 0
        ||| trimmed(self.date_to@).len() > 0
        ||| trimmed(self.added_from@).len() > 0
        ||| trimmed(self.added_to@).len() > 0
        ||| trimmed(self.opponent_tag@).len() > 0
    }

    /// Whether the date of play is limited.
    pub open spec fn limits_played(self) -> bool {
        trimmed(self.date_from@).len() > 0 || trimmed(self.date_to@).len() > 0
    }

    /// Whether the date of writing is limited.
    pub open spec fn limits_added(self) -> bool {
        trimmed(self.added_from@).len() > 0 || trimmed(self.added_to@).len() > 0
    }

    /// Whether a row has the dates that are limited.
    pub open spec fn can_judge(self, r: ReplayRow) -> bool {
        &&& self.limits_played() ==> r.played_cuts()
        &&& self.limits_added() ==> r.added_cuts()
    }

    /// Whether all rows have the dates that are limited.
    pub open spec fn can_judge_all(self, rows: Seq<ReplayRow>) -> bool {
        forall|i: int| 0 <= i < rows.len() ==> self.can_judge(#[trigger] rows[i])
    }

    fn has_played_limit(&self) -> (r: bool)
        ensures
            r == self.limits_played(),
    {
        !trim(self.date_from.as_str()).is_empty() || !trim(self.date_to.as_str()).is_empty()
    }

    fn has_added_limit(&self) -> (r: bool)
        ensures
            r == self.limits_added(),
    {
        !trim(self.added_from.as_str()).is_empty() || !trim(self.added_to.as_str()).is_empty()
    }

    /// Whether all rows have the dates that are limited.
    pub fn judges_all(&self, rows: &Vec<ReplayRow>) -> (b: bool)
        ensures
            b == self.can_judge_all(rows@),
    {
        let played: bool = self.has_played_limit();
        let added: bool = self.has_added_limit();
        let mut i: usize = 0;
        while i < rows.len()
            invariant
                i <= rows.len(),
                played == self.limits_played(),
                added == self.limits_added(),
                forall|j: int| 0 <= j < i ==> self.can_judge(#[trigger] rows@[j]),
            decreases rows.len() - i,
        {
            if (played && !rows[i].can_cut_played()) || (added && !rows[i].can_cut_added()) {
                assert(!self.can_judge(rows@[i as int]));
                return false;
            }
            i += 1;
        }
        true
    }

    /// A filter with no part set and no text in it.
    pub open spec fn is_clear(self) -> bool {
        &&& self.character is None
        &&& self.opp_character is None
        &&& self.stage is None
        &&& self.outcome == OutcomeFilter::All
        &&& self.date_from@ == Seq::<char>::empty()
        &&& self.date_to@ == Seq::<char>::empty()
        &&& self.added_from@ == Seq::<char>::empty()
        &&& self.added_to@ == Seq::<char>::empty()
        &&& self.opponent_tag@ == Seq::<char>::empty()
    }

    /// A filter with no part set.
    pub fn cleared() -> (f: LibraryFilter)
        ensures
            f.is_clear(),
    {
        LibraryFilter {
            character: None,
            opp_character: None,
            stage: None,
            outcome: OutcomeFilter::All,
            date_from: String::new(),
            date_to: String::new(),
            added_from: String::new(),
            added_to: String::new(),
            opponent_tag: String::new(),
        }
    }

    /// Whether any part is set.
    pub fn structured_filter_active(&self) -> (r: bool)
        ensures
            r == self.is_active(),
    {
        self.character.is_some() || self.opp_character.is_some() || self.stage.is_some()
            || self.outcome != OutcomeFilter::All || !trim(self.date_from.as_str()).is_empty() || !trim(
            self.date_to.as_str(),
        ).is_empty() || !trim(self.added_from.as_str()).is_empty() || !trim(
            self.added_to.as_str(),
        ).is_empty() || !trim(self.opponent_tag.as_str()).is_empty()
    }

    /// Whether a row is shown, for a user whose code is `user_code`; a blank
    /// code is no user.
    pub fn library_row_matches_structured(&self, r: &ReplayRow, user_code: &str) -> (b: bool)
        requires
            self.can_judge(*r),
        ensures
            b == self.shows(*r, user_of(user_code@)),
    {
        let user = trim(user_code);
        let my_ok: bool = match self.character {
            Some(c) => any_pick(r, c, user, true),
            None => true,
        };
        let opp_ok: bool = match self.opp_character {
            Some(c) => any_pick(r, c, user, false),
            None => true,
        };
        let stage_ok: bool = match self.stage {
            Some(s) => r.stage_id == s,
            None => true,
        };
        let outcome_ok: bool = match self.outcome {
            OutcomeFilter::All => true,
            OutcomeFilter::Wins => match r.user_won {
                Some(won) => won,
                None => false,
            },
            OutcomeFilter::Losses => match r.user_won {
                Some(won) => !won,
                None => false,
            },
        };
        let tag = trim(self.opponent_tag.as_str());
        let tag_ok: bool = tag.is_empty() || any_tagged(r, to_lowercase(tag).as_str(), user);
        let date_ok: bool = !self.has_played_limit() || date_in_range(
            r.played_date(),
            self.date_from.as_str(),
            self.date_to.as_str(),
        );
        let added_ok: bool = !self.has_added_limit() || date_in_range(
            r.ingested_date(),
            self.added_from.as_str(),
            self.added_to.as_str(),
        );
        my_ok && opp_ok && stage_ok && outcome_ok && tag_ok && date_ok && added_ok
    }
}

/// The user that a code stands for; a blank code stands for none.
pub open spec fn user_of(code: Seq<char>) -> Option<Seq<char>> {
    if trimmed(code).len() > 0 {
        Some(trimmed(code))
    } else {
        None
    }
}

pub open spec fn date_text_of(d: Option<&str>) -> Option<Seq<char>> {
    match d {
        Some(s) => Some(s@),
        None => None,
    }
}

/// Whether a date lies in a range.
pub fn date_in_range(date: Option<&str>, from: &str, to: &str) -> (r: bool)
    ensures
        r == in_range(date_text_of(date), from@, to@),
{
    let a = trim(from);
    let b = trim(to);
    if a.is_empty() && b.is_empty() {
        return true;
    }
    match date {
        Some(d) => (a.is_empty() || !less(d, a)) && (b.is_empty() || !less(b, d)),
        None => false,
    }
}

fn any_pick(r: &ReplayRow, c: i32, user: &str, mine: bool) -> (b: bool)
    ensures
        b == has_character(
            *r,
            c,
            if user@.len() > 0 {
                Some(user@)
            } else {
                None
            },
            mine,
        ),
{
    let ghost u = if user@.len() > 0 {
        Some(user@)
    } else {
        None
    };
    let has_user: bool = !user.is_empty();
    let mut k: usize = 0;
    while k < 4
        invariant
            k <= 4,
            has_user == (user@.len() > 0),
            u == (if user@.len() > 0 {
                Some(user@)
            } else {
                None
            }),
            forall|j: int| 0 <= j < k ==> !#[trigger] is_pick(*r, j, c, u, mine),
        decreases 4 - k,
    {
        let hit: bool = match &r.slots[k] {
            Some(s) => s.character_id == c && (!has_user || same(s.code.as_str(), user) == mine),
            None => false,
        };
        assert(hit == is_pick(*r, k as int, c, u, mine));
        if hit {
            return true;
        }
        k += 1;
    }
    false
}

/// Whether a code in lower case holds a tag in lower case.
pub fn tag_hits(lowered_code: &str, lowered_tag: &str) -> (r: bool)
    ensures
        r == contains_text(lowered_code@, lowered_tag@),
{
    contains(lowered_code, lowered_tag)
}

fn any_tagged(r: &ReplayRow, tag: &str, user: &str) -> (b: bool)
    ensures
        b == has_tag(
            *r,
            tag@,
            if user@.len() > 0 {
                Some(user@)
            } else {
                None
            },
        ),
{
    let ghost u = if user@.len() > 0 {
        Some(user@)
    } else {
        None
    };
    let has_user: bool = !user.is_empty();
    let mut k: usize = 0;
    while k < 4
        invariant
            k <= 4,
            has_user == (user@.len() > 0),
            u == (if user@.len() > 0 {
                Some(user@)
            } else {
                None
            }),
            forall|j: int| 0 <= j < k ==> !#[trigger] is_tagged(*r, j, tag@, u),
        decreases 4 - k,
    {
        let hit: bool = match &r.slots[k] {
            Some(s) => (!has_user || !same(s.code.as_str(), user)) && tag_hits(
                to_lowercase(s.code.as_str()).as_str(),
                tag,
            ),
            None => false,
        };
        assert(hit == is_tagged(*r, k as int, tag@, u));
        if hit {
            return true;
        }
        k += 1;
    }
    false
}

/// The places of the rows that are shown, among the first `n`.
pub open spec fn shown_places(
    f: LibraryFilter,
    rows: Seq<ReplayRow>,
    user: Option<Seq<char>>,
    n: int,
) -> Seq<usize>
    decreases n,
{
    if n <= 0 {
        seq![]
    } else if f.shows(rows[n - 1], user) {
        shown_places(f, rows, user, n - 1).push((n - 1) as usize)
    } else {
        shown_places(f, rows, user, n - 1)
    }
}

/// The places of the rows that are shown.
pub fn visible_rows(f: &LibraryFilter, rows: &Vec<ReplayRow>, user_code: &str) -> (r: Vec<usize>)
    requires
        f.can_judge_all(rows@),
    ensures
        r@ == shown_places(*f, rows@, user_of(user_code@), rows@.len() as int),
{
    let mut out: Vec<usize> = Vec::new();
    let mut i: usize = 0;
    while i < rows.len()
        invariant
            i <= rows.len(),
            f.can_judge_all(rows@),
            out@ == shown_places(*f, rows@, user_of(user_code@), i as int),
        decreases rows.len() - i,
    {
        if f.library_row_matches_structured(&rows[i], user_code) {
            out.push(i);
        }
        i += 1;
    }
    out
}

/// The ids of the games at some places.
pub open spec fn ids_at(rows: Seq<ReplayRow>, places: Seq<usize>) -> Seq<i32> {
    places.map_values(|p: usize| rows[p as int].game_id)
}

/// The ids of the games that are shown: the games that the statistics count.
pub fn library_filtered_game_ids(f: &LibraryFilter, rows: &Vec<ReplayRow>, user_code: &str) -> (r: Vec<
    i32,
>)
    requires
        f.can_judge_all(rows@),
    ensures
        r@ == ids_at(rows@, shown_places(*f, rows@, user_of(user_code@), rows@.len() as int)),
{
    let mut out: Vec<i32> = Vec::new();
    let mut i: usize = 0;
    assert(ids_at(rows@, seq![]) =~= seq![]);
    while i < rows.len()
        invariant
            i <= rows.len(),
            f.can_judge_all(rows@),
            out@ == ids_at(rows@, shown_places(*f, rows@, user_of(user_code@), i as int)),
        decreases rows.len() - i,
    {
        let ghost before = shown_places(*f, rows@, user_of(user_code@), i as int);
        if f.library_row_matches_structured(&rows[i], user_code) {
            out.push(rows[i].game_id);
            assert(out@ =~= ids_at(rows@, before.push(i)));
        }
        i += 1;
    }
    out
}

// ---------------------------------------------------------------- descriptions

/// What a character selector shows.
pub open spec fn character_words(id: Option<i32>) -> Seq<char> {
    match id {
        None => "Any"@,
        Some(c) => match character_text(c as int) {
            Some(s) => spaced(s),
            None => "char #"@ + integer_text(c as int),
        },
    }
}

/// What a character selector shows.
pub fn character_label(id: Option<i32>) -> (r: String)
    ensures
        r@ == character_words(id),
{
    match id {
        None => "Any".to_owned(),
        Some(c) => match character_name(c) {
            Some(s) => spaced_name(s),
            None => {
                let mut out = "char #".to_owned();
                push_integer(&mut out, c as i64);
                out
            },
        },
    }
}

/// What a stage selector shows.
pub open spec fn stage_words(id: Option<i32>) -> Seq<char> {
    match id {
        None => "Any"@,
        Some(s) => match stage_text(s as int) {
            Some(name) => spaced(name),
            None => "stage #"@ + integer_text(s as int),
        },
    }
}

/// What a stage selector shows.
pub fn stage_label(id: Option<i32>) -> (r: String)
    ensures
        r@ == stage_words(id),
{
    match id {
        None => "Any".to_owned(),
        Some(s) => match stage_name(s) {
            Some(name) => spaced_name(name),
            None => {
                let mut out = "stage #".to_owned();
                push_integer(&mut out, s as i64);
                out
            },
        },
    }
}

/// What the sort selector shows.
pub fn sort_key_label(key: SortKey) -> (r: &'static str)
    ensures
        r@ == (match key {
            SortKey::IngestedAt => "Newest (added)"@,
            SortKey::PlayedAt => "Date played"@,
            SortKey::GameId => "Game ID"@,
            SortKey::Stage => "Stage"@,
            SortKey::Duration => "Duration"@,
            SortKey::Outcome => "Outcome"@,
        }),
{
    match key {
        SortKey::IngestedAt => "Newest (added)",
        SortKey::PlayedAt => "Date played",
        SortKey::GameId => "Game ID",
        SortKey::Stage => "Stage",
        SortKey::Duration => "Duration",
        SortKey::Outcome => "Outcome",
    }
}

/// The part of a description that tells of a range of dates, where it has an
/// end.
pub open spec fn span_words(label: Seq<char>, from: Seq<char>, to: Seq<char>) -> Option<Seq<char>> {
    let (a, b) = (trimmed(from), trimmed(to));
    if a.len() == 0 && b.len() == 0 {
        None
    } else {
        Some(
            label + " "@ + (if a.len() == 0 {
                "…"@
            } else {
                a
            }) + "–"@ + (if b.len() == 0 {
                "…"@
            } else {
                b
            }),
        )
    }
}

fn span_part(label: &str, from: &str, to: &str) -> (r: Option<String>)
    ensures
        crate::text::opt_text(r) == span_words(label@, from@, to@),
{
    let a = trim(from);
    let b = trim(to);
    if a.is_empty() && b.is_empty() {
        return None;
    }
    let mut out = label.to_owned();
    out.append(" ");
    out.append(
        if a.is_empty() {
            "…"
        } else {
            a
        },
    );
    out.append("–");
    out.append(
        if b.is_empty() {
            "…"
        } else {
            b
        },
    );
    Some(out)
}

pub open spec fn push_opt(v: Seq<Seq<char>>, o: Option<Seq<char>>) -> Seq<Seq<char>> {
    match o {
        Some(s) => v.push(s),
        None => v,
    }
}

/// The parts of the description of a filter, in order.
pub open spec fn description_parts(f: LibraryFilter) -> Seq<Seq<char>> {
    let tag = trimmed(f.opponent_tag@);
    let p1 = push_opt(
        seq![],
        match f.character {
            Some(c) => Some(character_words(Some(c))),
            None => None,
        },
    );
    let p2 = push_opt(
        p1,
        match f.opp_character {
            Some(c) => Some("vs "@ + character_words(Some(c))),
            None => None,
        },
    );
    let p3 = push_opt(
        p2,
        match f.stage {
            Some(s) => Some(stage_words(Some(s))),
            None => None,
        },
    );
    let p4 = push_opt(
        p3,
        match f.outcome {
            OutcomeFilter::All => None,
            o => Some(o.text()),
        },
    );
    let p5 = push_opt(
        p4,
        if tag.len() == 0 {
            None
        } else {
            Some("vs "@ + tag)
        },
    );
    let p6 = push_opt(p5, span_words("played"@, f.date_from@, f.date_to@));
    push_opt(p6, span_words("added"@, f.added_from@, f.added_to@))
}

/// Texts in a row, with `sep` between each two.
pub open spec fn strung(parts: Seq<Seq<char>>, sep: Seq<char>) -> Seq<char>
    decreases parts.len(),
{
    if parts.len() == 0 {
        seq![]
    } else if parts.len() == 1 {
        parts[0]
    } else {
        strung(parts.drop_last(), sep) + sep + parts.last()
    }
}

/// Texts in a row, with `sep` between each two.
pub fn string_together(parts: &Vec<String>, sep: &str) -> (r: String)
    ensures
        r@ == strung(texts(parts@), sep@),
{
    let ghost all = texts(parts@);
    let mut out = String::new();
    let mut i: usize = 0;
    assert(all.take(0) =~= seq![]);
    while i < parts.len()
        invariant
            all == texts(parts@),
            i <= parts.len(),
            out@ == strung(all.take(i as int), sep@),
        decreases parts.len() - i,
    {
        assert(all.take(i + 1).drop_last() =~= all.take(i as int));
        if i > 0 {
            out.append(sep);
        }
        out.append(parts[i].as_str());
        assert(out@ =~= strung(all.take(i + 1), sep@));
        i += 1;
    }
    assert(all.take(i as int) =~= all);
    out
}

/// The description of a filter.
pub open spec fn description(f: LibraryFilter) -> Seq<char> {
    if f.is_active() {
        strung(description_parts(f), " · "@)
    } else {
        "Your whole history"@
    }
}

fn push_part(v: &mut Vec<String>, s: String)
    ensures
        texts(final(v)@) == texts(old(v)@).push(s@),
{
    let ghost before = v@;
    v.push(s);
    assert(texts(v@) =~= texts(before).push(s@));
}

impl LibraryFilter {
    /// The filter in words.
    pub fn filter_description(&self) -> (r: String)
        ensures
            r@ == description(*self),
    {
        if !self.structured_filter_active() {
            return "Your whole history".to_owned();
        }
        let mut parts: Vec<String> = Vec::new();
        assert(texts(parts@) =~= seq![]);
        match self.character {
            Some(c) => {
                push_part(&mut parts, character_label(Some(c)));
            },
            None => {},
        }
        match self.opp_character {
            Some(c) => {
                push_part(&mut parts, "vs ".to_owned().concat(character_label(Some(c)).as_str()));
            },
            None => {},
        }
        match self.stage {
            Some(s) => {
                push_part(&mut parts, stage_label(Some(s)));
            },
            None => {},
        }
        match self.outcome {
            OutcomeFilter::All => {},
            OutcomeFilter::Wins => {
                push_part(&mut parts, "Wins".to_owned());
            },
            OutcomeFilter::Losses => {
                push_part(&mut parts, "Losses".to_owned());
            },
        }
        let tag = trim(self.opponent_tag.as_str());
        if !tag.is_empty() {
            push_part(&mut parts, "vs ".to_owned().concat(tag));
        }
        match span_part("played", self.date_from.as_str(), self.date_to.as_str()) {
            Some(s) => {
                push_part(&mut parts, s);
            },
            None => {},
        }
        match span_part("added", self.added_from.as_str(), self.added_to.as_str()) {
            Some(s) => {
                push_part(&mut parts, s);
            },
            None => {},
        }
        assert(texts(parts@) =~= description_parts(*self));
        string_together(&parts, " · ")
    }
}

// ---------------------------------------------------------------- summary keys

/// What a summary was made for: a code, and the filter without the white space
/// around its texts.
#[derive(Debug)]
pub struct SummaryKey {
    pub code: String,
    pub character: Option<i32>,
    pub opp_character: Option<i32>,
    pub stage: Option<i32>,
    pub outcome: OutcomeFilter,
    pub date_from: String,
    pub date_to: String,
    pub added_from: String,
    pub added_to: String,
    pub opponent_tag: String,
}

/// A summary key, as characters.
pub struct KeyView {
    pub code: Seq<char>,
    pub character: Option<i32>,
    pub opp_character: Option<i32>,
    pub stage: Option<i32>,
    pub outcome: OutcomeFilter,
    pub date_from: Seq<char>,
    pub date_to: Seq<char>,
    pub added_from: Seq<char>,
    pub added_to: Seq<char>,
    pub opponent_tag: Seq<char>,
}

impl View for SummaryKey {
    type V = KeyView;

    open spec fn view(&self) -> KeyView {
        KeyView {
            code: self.code@,
            character: self.character,
            opp_character: self.opp_character,
            stage: self.stage,
            outcome: self.outcome,
            date_from: self.date_from@,
            date_to: self.date_to@,
            added_from: self.added_from@,
            added_to: self.added_to@,
            opponent_tag: self.opponent_tag@,
        }
    }
}

fn same_option(a: Option<i32>, b: Option<i32>) -> (r: bool)
    ensures
        r == (a == b),
{
    match (a, b) {
        (Some(x), Some(y)) => x == y,
        (None, None) => true,
        _ => false,
    }
}

impl SummaryKey {
    /// Whether two keys are the same.
    pub fn equals(&self, other: &SummaryKey) -> (r: bool)
        ensures
            r == (self@ == other@),
    {
        same(self.code.as_str(), other.code.as_str()) && same_option(
            self.character,
            other.character,
        ) && same_option(self.opp_character, other.opp_character) && same_option(
            self.stage,
            other.stage,
        ) && self.outcome == other.outcome && same(
            self.date_from.as_str(),
            other.date_from.as_str(),
        ) && same(self.date_to.as_str(), other.date_to.as_str()) && same(
            self.added_from.as_str(),
            other.added_from.as_str(),
        ) && same(self.added_to.as_str(), other.added_to.as_str()) && same(
            self.opponent_tag.as_str(),
            other.opponent_tag.as_str(),
        )
    }
}

impl LibraryFilter {
    /// The key of a summary for a code under this filter.
    pub open spec fn key_for(self, code: Seq<char>) -> KeyView {
        KeyView {
            code,
            character: self.character,
            opp_character: self.opp_character,
            stage: self.stage,
            outcome: self.outcome,
            date_from: trimmed(self.date_from@),
            date_to: trimmed(self.date_to@),
            added_from: trimmed(self.added_from@),
            added_to: trimmed(self.added_to@),
            opponent_tag: trimmed(self.opponent_tag@),
        }
    }

    /// The key of a summary for a code under this filter.
    pub fn summary_key(&self, code: &str) -> (r: SummaryKey)
        ensures
            r@ == self.key_for(code@),
    {
        SummaryKey {
            code: code.to_owned(),
            character: self.character,
            opp_character: self.opp_character,
            stage: self.stage,
            outcome: self.outcome,
            date_from: trim(self.date_from.as_str()).to_owned(),
            date_to: trim(self.date_to.as_str()).to_owned(),
            added_from: trim(self.added_from.as_str()).to_owned(),
            added_to: trim(self.added_to.as_str()).to_owned(),
            opponent_tag: trim(self.opponent_tag.as_str()).to_owned(),
        }
    }
}

// ----------------------------------------------------------------- for the menu

/// The day numbers of some dates, those without one left out.
pub open spec fn ordinals_of(dates: Seq<Option<Seq<char>>>) -> Seq<int>
    decreases dates.len(),
{
    if dates.len() == 0 {
        seq![]
    } else {
        let before = ordinals_of(dates.drop_last());
        match dates.last() {
            Some(d) => match text_ordinal(d) {
                Some(z) => before.push(z),
                None => before,
            },
            None => before,
        }
    }
}

pub open spec fn played_dates(rows: Seq<ReplayRow>) -> Seq<Option<Seq<char>>> {
    rows.map_values(|r: ReplayRow| r.played_text())
}

pub open spec fn added_dates(rows: Seq<ReplayRow>) -> Seq<Option<Seq<char>>> {
    rows.map_values(|r: ReplayRow| first_ten(r.ingested_at@))
}

pub open spec fn as_ints(v: Seq<i64>) -> Seq<int> {
    v.map_values(|z: i64| z as int)
}

/// The day numbers on which the games were played, where that is known.
pub fn library_played_date_ordinals(rows: &Vec<ReplayRow>) -> (r: Vec<i64>)
    requires
        forall|i: int| 0 <= i < rows@.len() ==> (#[trigger] rows@[i]).played_cuts(),
    ensures
        as_ints(r@) == ordinals_of(played_dates(rows@)),
        forall|i: int| 0 <= i < r@.len() ==> -5_000_000 <= #[trigger] r@[i] <= 5_000_000,
{
    let ghost all = played_dates(rows@);
    let mut out: Vec<i64> = Vec::new();
    let mut i: usize = 0;
    assert(all.take(0) =~= seq![]);
    assert(as_ints(out@) =~= seq![]);
    while i < rows.len()
        invariant
            all == played_dates(rows@),
            forall|j: int| 0 <= j < rows@.len() ==> (#[trigger] rows@[j]).played_cuts(),
            i <= rows.len(),
            as_ints(out@) == ordinals_of(all.take(i as int)),
            forall|k: int| 0 <= k < out@.len() ==> -5_000_000 <= #[trigger] out@[k] <= 5_000_000,
        decreases rows.len() - i,
    {
        assert(all.take(i + 1).drop_last() =~= all.take(i as int));
        assert(all.take(i + 1).last() == rows@[i as int].played_text());
        match rows[i].played_date() {
            Some(d) => match date_to_ordinal(d) {
                Some(z) => {
                    let ghost before = out@;
                    out.push(z);
                    assert(as_ints(out@) =~= as_ints(before).push(z as int));
                },
                None => {},
            },
            None => {},
        }
        i += 1;
    }
    assert(all.take(i as int) =~= all);
    out
}

/// The day numbers on which the rows were written.
pub fn library_ingested_date_ordinals(rows: &Vec<ReplayRow>) -> (r: Vec<i64>)
    requires
        forall|i: int| 0 <= i < rows@.len() ==> (#[trigger] rows@[i]).added_cuts(),
    ensures
        as_ints(r@) == ordinals_of(added_dates(rows@)),
        forall|i: int| 0 <= i < r@.len() ==> -5_000_000 <= #[trigger] r@[i] <= 5_000_000,
{
    let ghost all = added_dates(rows@);
    let mut out: Vec<i64> = Vec::new();
    let mut i: usize = 0;
    assert(all.take(0) =~= seq![]);
    assert(as_ints(out@) =~= seq![]);
    while i < rows.len()
        invariant
            all == added_dates(rows@),
            forall|j: int| 0 <= j < rows@.len() ==> (#[trigger] rows@[j]).added_cuts(),
            i <= rows.len(),
            as_ints(out@) == ordinals_of(all.take(i as int)),
            forall|k: int| 0 <= k < out@.len() ==> -5_000_000 <= #[trigger] out@[k] <= 5_000_000,
        decreases rows.len() - i,
    {
        assert(all.take(i + 1).drop_last() =~= all.take(i as int));
        assert(all.take(i + 1).last() == first_ten(rows@[i as int].ingested_at@));
        match rows[i].ingested_date() {
            Some(d) => match date_to_ordinal(d) {
                Some(z) => {
                    let ghost before = out@;
                    out.push(z);
                    assert(as_ints(out@) =~= as_ints(before).push(z as int));
                },
                None => {},
            },
            None => {},
        }
        i += 1;
    }
    assert(all.take(i as int) =~= all);
    out
}

/// Whether someone other than the user played under a code, in slot `k` of row
/// `i`.
pub open spec fn opponent_at(
    rows: Seq<ReplayRow>,
    user: Option<Seq<char>>,
    i: int,
    k: int,
    code: Seq<char>,
) -> bool {
    &&& 0 <= i < rows.len()
    &&& 0 <= k < 4
    &&& slot_view(rows[i].slots@[k]) matches Some((c, _)) && c == code
    &&& code.len() > 0
    &&& user != Some(code)
}

/// Whether a code is that of an opponent.
pub open spec fn is_opponent(
    rows: Seq<ReplayRow>,
    user: Option<Seq<char>>,
    code: Seq<char>,
) -> bool {
    exists|i: int, k: int| #[trigger] opponent_at(rows, user, i, k, code)
}

/// Texts under their own order.
pub struct TextOrder<'a> {
    pub texts: &'a Vec<String>,
}

impl<'a> Ranking for TextOrder<'a> {
    open spec fn count(&self) -> nat {
        self.texts@.len()
    }

    open spec fn lt(&self, i: int, j: int) -> bool {
        precedes(self.texts@[i]@, self.texts@[j]@)
    }

    proof fn lt_is_weak_order(&self) {
        assert forall|i: int| 0 <= i < self.count() implies !#[trigger] self.lt(i, i) by {
            lemma_precedes_irreflexive(self.texts@[i]@);
        }
        assert forall|i: int, j: int, k: int|
            0 <= i < self.count() && 0 <= j < self.count() && 0 <= k < self.count()
                && #[trigger] self.lt(i, j) && #[trigger] self.lt(j, k) implies self.lt(i, k) by {
            lemma_precedes_transitive(self.texts@[i]@, self.texts@[j]@, self.texts@[k]@);
        }
        assert forall|i: int, j: int, k: int|
            0 <= i < self.count() && 0 <= j < self.count() && 0 <= k < self.count()
                && #[trigger] self.lt(i, k) implies #[trigger] self.lt(i, j) || self.lt(j, k) by {
            let (a, b, c) = (self.texts@[i]@, self.texts@[j]@, self.texts@[k]@);
            lemma_precedes_total(a, b);
            if precedes(b, a) {
                lemma_precedes_transitive(b, a, c);
            }
        }
    }

    fn before(&self, i: usize, j: usize) -> (r: bool) {
        less(self.texts[i].as_str(), self.texts[j].as_str())
    }
}

/// Whether each text stands before the next.
pub open spec fn ascending(v: Seq<Seq<char>>) -> bool {
    forall|a: int, b: int| 0 <= a < b < v.len() ==> precedes(#[trigger] v[a], #[trigger] v[b])
}

/// The texts of a list, each once, in order.
pub fn sorted_distinct(v: &Vec<String>) -> (r: Vec<String>)
    ensures
        ascending(texts(r@)),
        forall|t: Seq<char>| #[trigger] texts(r@).contains(t) <==> texts(v@).contains(t),
{
    let ghost all = texts(v@);
    let ranking = TextOrder { texts: v };
    let order = stable_order(&ranking, v.len());
    let mut out: Vec<String> = Vec::new();
    let mut k: usize = 0;
    while k < order.len()
        invariant
            ranking.texts == v,
            all == texts(v@),
            k <= order.len(),
            lists_in_order(ranking, order@, 0, v.len() as int),
            ascending(texts(out@)),
            out@.len() == 0 <==> k == 0,
            out@.len() > 0 ==> out@.last()@ == all[order@[k - 1] as int],
            forall|a: int| 0 <= a < out@.len() ==> all.contains((#[trigger] out@[a])@),
            forall|a: int| 0 <= a < k ==> texts(out@).contains(all[#[trigger] order@[a] as int]),
        decreases order.len() - k,
    {
        let place: usize = order[k];
        let n: usize = out.len();
        let ghost before = texts(out@);
        let ghost here = all[place as int];
        assert(v@[place as int]@ == here);
        proof {
            if k > 0 {
                assert(first_of(ranking, order@[k - 1] as int, order@[k as int] as int));
                lemma_precedes_total(out@.last()@, here);
            }
        }
        if n == 0 || !same(out[n - 1].as_str(), v[place].as_str()) {
            out.push(v[place].clone());
            proof {
                assert(texts(out@) =~= before.push(here));
                assert(all.contains(here));
                assert forall|a: int, b: int| 0 <= a < b < texts(out@).len() implies precedes(
                    #[trigger] texts(out@)[a],
                    #[trigger] texts(out@)[b],
                ) by {
                    if b == before.len() {
                        if a < before.len() - 1 {
                            assert(precedes(before[a], before[before.len() - 1]));
                            lemma_precedes_transitive(before[a], before[before.len() - 1], here);
                        }
                    } else {
                        assert(before[a] == texts(out@)[a] && before[b] == texts(out@)[b]);
                    }
                }
                assert forall|a: int| 0 <= a < k + 1 implies texts(out@).contains(
                    all[#[trigger] order@[a] as int],
                ) by {
                    if a < k {
                        let t = all[order@[a] as int];
                        let j = choose|j: int| 0 <= j < before.len() && before[j] == t;
                        assert(texts(out@)[j] == t);
                    } else {
                        assert(texts(out@)[before.len() as int] == here);
                    }
                }
            }
        } else {
            assert(before[before.len() - 1] == here);
        }
        k += 1;
    }
    proof {
        assert forall|t: Seq<char>| #[trigger] texts(out@).contains(t) <==> all.contains(t) by {
            if texts(out@).contains(t) {
                let a = choose|a: int| 0 <= a < texts(out@).len() && texts(out@)[a] == t;
                assert(out@[a]@ == t);
            }
            if all.contains(t) {
                let i = choose|i: int| 0 <= i < all.len() && all[i] == t;
                assert(order@.contains(i as usize));
                let a = choose|a: int| 0 <= a < order@.len() && order@[a] == (i as usize);
                assert(texts(out@).contains(all[order@[a] as int]));
            }
        }
    }
    out
}

/// The codes of the opponents, each once, in order.
pub fn library_opponent_codes(rows: &Vec<ReplayRow>, user_code: &str) -> (r: Vec<String>)
    ensures
        ascending(texts(r@)),
        forall|code: Seq<char>| #[trigger]
            texts(r@).contains(code) <==> is_opponent(rows@, user_of(user_code@), code),
{
    let ghost user = user_of(user_code@);
    let own = trim(user_code);
    let has_user: bool = !own.is_empty();
    let mut codes: Vec<String> = Vec::new();
    let mut i: usize = 0;
    while i < rows.len()
        invariant
            i <= rows.len(),
            has_user == (own@.len() > 0),
            own@ == trimmed(user_code@),
            user == user_of(user_code@),
            forall|a: int| 0 <= a < codes@.len() ==> is_opponent(rows@, user, (#[trigger] codes@[a])@),
            forall|j: int, k: int, code: Seq<char>|
                j < i && #[trigger] opponent_at(rows@, user, j, k, code) ==> texts(codes@).contains(code),
        decreases rows.len() - i,
    {
        let mut k: usize = 0;
        while k < 4
            invariant
                i < rows.len(),
                k <= 4,
                has_user == (own@.len() > 0),
                own@ == trimmed(user_code@),
                user == user_of(user_code@),
                forall|a: int|
                    0 <= a < codes@.len() ==> is_opponent(rows@, user, (#[trigger] codes@[a])@),
                forall|j: int, m: int, code: Seq<char>|
                    (j < i || (j == i && m < k)) && #[trigger] opponent_at(rows@, user, j, m, code)
                        ==> texts(codes@).contains(code),
            decreases 4 - k,
        {
            match &rows[i].slots[k] {
                Some(s) => {
                    if !s.code.as_str().is_empty() && (!has_user || !same(s.code.as_str(), own)) {
                        let ghost before = codes@;
                        codes.push(s.code.clone());
                        proof {
                            assert(opponent_at(rows@, user, i as int, k as int, s.code@));
                            assert(texts(codes@) =~= texts(before).push(s.code@));
                            assert(texts(codes@)[before.len() as int] == s.code@);
                            assert forall|t: Seq<char>| texts(before).contains(t) implies texts(
                                codes@,
                            ).contains(t) by {
                                let a = choose|a: int|
                                    0 <= a < texts(before).len() && texts(before)[a] == t;
                                assert(texts(codes@)[a] == t);
                            }
                        }
                    }
                },
                None => {},
            }
            k += 1;
        }
        i += 1;
    }
    let r = sorted_distinct(&codes);
    proof {
        assert forall|code: Seq<char>| #[trigger]
            texts(r@).contains(code) <==> is_opponent(rows@, user, code) by {
            if texts(codes@).contains(code) {
                let a = choose|a: int| 0 <= a < texts(codes@).len() && texts(codes@)[a] == code;
                assert(codes@[a]@ == code);
            }
        }
    }
    r
}

/// Whether a code is offered for what was typed, both in lower case: it holds
/// it and is more.
pub fn is_suggestion(lowered_code: &str, lowered_typed: &str) -> (r: bool)
    ensures
        r == (contains_text(lowered_code@, lowered_typed@) && lowered_code@ != lowered_typed@),
{
    contains(lowered_code, lowered_typed) && !same(lowered_code, lowered_typed)
}

/// Whether a code is offered for what was typed.
pub open spec fn offered(typed: Seq<char>) -> spec_fn(Seq<char>) -> bool {
    |code: Seq<char>|
        contains_text(lowercase_text(code), lowercase_text(typed)) && lowercase_text(code)
            != lowercase_text(typed)
}

/// The codes that are offered for what was typed, at most six.
pub fn tag_suggestions(codes: &Vec<String>, typed: &str) -> (r: Vec<String>)
    ensures
        texts(r@) == (if trimmed(typed@).len() == 0 {
            seq![]
        } else {
            front(texts(codes@).filter(offered(trimmed(typed@))), 6)
        }),
{
    let mut out: Vec<String> = Vec::new();
    let q = trim(typed);
    assert(texts(out@) =~= seq![]);
    if q.is_empty() {
        return out;
    }
    let lowered = to_lowercase(q);
    let ghost all = texts(codes@);
    let ghost p = offered(trimmed(typed@));
    let mut i: usize = 0;
    proof {
        reveal(Seq::filter);
        assert(all.take(0).filter(p) =~= seq![]);
    }
    while i < codes.len()
        invariant
            all == texts(codes@),
            q@ == trimmed(typed@),
            lowered@ == lowercase_text(q@),
            p == offered(trimmed(typed@)),
            i <= codes.len(),
            out@.len() <= 6,
            texts(out@) == front(all.take(i as int).filter(p), 6),
        decreases codes.len() - i,
    {
        let ghost hits = all.take(i as int).filter(p);
        proof {
            reveal(Seq::filter);
            assert(all.take(i + 1).drop_last() =~= all.take(i as int));
            assert(all.take(i + 1).last() == codes@[i as int]@);
        }
        let hit: bool = is_suggestion(to_lowercase(codes[i].as_str()).as_str(), lowered.as_str());
        assert(hit == p(codes@[i as int]@));
        if hit && out.len() < 6 {
            let ghost before = out@;
            out.push(codes[i].clone());
            assert(texts(out@) =~= texts(before).push(codes@[i as int]@));
            assert(front(hits.push(codes@[i as int]@), 6) =~= front(hits, 6).push(codes@[i as int]@));
        } else if hit {
            assert(front(hits.push(codes@[i as int]@), 6) =~= front(hits, 6));
        }
        i += 1;
    }
    assert(all.take(i as int) =~= all);
    out
}

// ------------------------------------------------------------------------ laws

/// A filter with no part set shows every row.
pub proof fn inactive_filter_shows_all(f: LibraryFilter, r: ReplayRow, user: Option<Seq<char>>)
    requires
        !f.is_active(),
    ensures
        f.shows(r, user),
{
}

/// A cleared filter is not active.
pub proof fn cleared_filter_is_inactive(f: LibraryFilter)
    requires
        f.is_clear(),
    ensures
        !f.is_active(),
{
}

/// A filter on the outcome hides the rows whose outcome is not known.
pub proof fn unknown_outcomes_are_hidden(f: LibraryFilter, r: ReplayRow, user: Option<Seq<char>>)
    requires
        f.outcome != OutcomeFilter::All,
        r.user_won is None,
    ensures
        !f.shows(r, user),
{
}

/// A filter on the date of play hides the rows without one.
pub proof fn undated_rows_are_hidden(f: LibraryFilter, r: ReplayRow, user: Option<Seq<char>>)
    requires
        trimmed(f.date_from@).len() > 0 || trimmed(f.date_to@).len() > 0,
        r.played_text() is None,
    ensures
        !f.shows(r, user),
{
}

/// Between two dates lie the days from the first to the second, and no others.
pub proof fn ranges_go_by_day(day: (int, int, int), from: (int, int, int), to: (int, int, int))
    requires
        is_date(day.0, day.1, day.2),
        is_date(from.0, from.1, from.2),
        is_date(to.0, to.1, to.2),
        0 <= day.0 <= 9999,
        0 <= from.0 <= 9999,
        0 <= to.0 <= 9999,
    ensures
        in_range(
            Some(date_text(day.0, day.1, day.2)),
            date_text(from.0, from.1, from.2),
            date_text(to.0, to.1, to.2),
        ) <==> day_number(from.0, from.1, from.2) <= day_number(day.0, day.1, day.2) <= day_number(
            to.0,
            to.1,
            to.2,
        ),
{
    lemma_dates_are_trimmed(from.0, from.1, from.2);
    lemma_dates_are_trimmed(to.0, to.1, to.2);
    written_dates_sort_by_day(day, from);
    written_dates_sort_by_day(to, day);
}

/// Filters with the same key show the same rows.
pub proof fn same_key_shows_same_rows(
    f: LibraryFilter,
    g: LibraryFilter,
    code: Seq<char>,
    r: ReplayRow,
    user: Option<Seq<char>>,
)
    requires
        f.key_for(code) == g.key_for(code),
    ensures
        f.shows(r, user) == g.shows(r, user),
{
}

/// With no part set, every place is shown, in order.
pub proof fn inactive_filter_keeps_every_place(
    f: LibraryFilter,
    rows: Seq<ReplayRow>,
    user: Option<Seq<char>>,
    n: int,
)
    requires
        !f.is_active(),
        0 <= n <= usize::MAX,
    ensures
        shown_places(f, rows, user, n) == Seq::new(n as nat, |i: int| i as usize),
    decreases n,
{
    if n > 0 {
        inactive_filter_keeps_every_place(f, rows, user, n - 1);
        inactive_filter_shows_all(f, rows[n - 1], user);
    }
    assert(shown_places(f, rows, user, n) =~= Seq::new(n as nat, |i: int| i as usize));
}

/// A row is shown where the filter lets it through, and only there.
pub proof fn shown_places_are_the_rows_that_pass(
    f: LibraryFilter,
    rows: Seq<ReplayRow>,
    user: Option<Seq<char>>,
    n: int,
)
    requires
        0 <= n <= rows.len(),
        n <= usize::MAX,
    ensures
        forall|i: int|
            0 <= i < n ==> (shown_places(f, rows, user, n).contains(#[trigger] (i as usize)) <==> f.shows(
                rows[i],
                user,
            )),
        forall|k: int|
            0 <= k < shown_places(f, rows, user, n).len() ==> (#[trigger] shown_places(
                f,
                rows,
                user,
                n,
            )[k]) < n,
    decreases n,
{
    if n > 0 {
        shown_places_are_the_rows_that_pass(f, rows, user, n - 1);
        let before = shown_places(f, rows, user, n - 1);
        let now = shown_places(f, rows, user, n);
        assert forall|i: int| 0 <= i < n implies (now.contains(#[trigger] (i as usize)) <==> f.shows(
            rows[i],
            user,
        )) by {
            if now.len() > before.len() {
                assert(now[before.len() as int] == (n - 1) as usize);
                if i < n - 1 && before.contains(i as usize) {
                    let k = choose|k: int| 0 <= k < before.len() && before[k] == (i as usize);
                    assert(now[k] == (i as usize));
                }
                if i < n - 1 && now.contains(i as usize) {
                    let k = choose|k: int| 0 <= k < now.len() && now[k] == (i as usize);
                    assert(before[k] == (i as usize));
                }
            } else if i == n - 1 && now.contains(i as usize) {
                let k = choose|k: int| 0 <= k < now.len() && now[k] == (i as usize);
                assert(before[k] < n - 1);
            }
        }
        assert forall|k: int| 0 <= k < now.len() implies (#[trigger] now[k]) < n by {
            if k < before.len() {
                assert(now[k] == before[k]);
            }
        }
    }
}

/// Whether a slot has someone with a character who is the user (`mine`) or is
/// not; without a user it is anyone's.
pub open spec fn plays(slot: Option<PlayerSlot>, c: i32, user: Option<Seq<char>>, mine: bool) -> bool {
    &&& slot matches Some(s)
    &&& s.character_id == c
    &&& user is Some ==> (s.code@ == user->0) == mine
}

/// Every part that is set holds of every row that is shown, whatever the others
/// are.
pub proof fn shown_rows_meet_every_part(f: LibraryFilter, r: ReplayRow, user: Option<Seq<char>>)
    requires
        f.shows(r, user),
    ensures
        f.character matches Some(c) ==> plays(r.slots@[0], c, user, true) || plays(
            r.slots@[1],
            c,
            user,
            true,
        ) || plays(r.slots@[2], c, user, true) || plays(r.slots@[3], c, user, true),
        f.opp_character matches Some(c) ==> plays(r.slots@[0], c, user, false) || plays(
            r.slots@[1],
            c,
            user,
            false,
        ) || plays(r.slots@[2], c, user, false) || plays(r.slots@[3], c, user, false),
        f.stage is Some ==> f.stage == Some(r.stage_id),
        f.outcome == OutcomeFilter::Wins ==> r.user_won == Some(true),
        f.outcome == OutcomeFilter::Losses ==> r.user_won == Some(false),
        trimmed(f.opponent_tag@).len() > 0 ==> exists|k: int|
            0 <= k < 4 && (#[trigger] r.slots@[k]) is Some && Some(r.slots@[k]->0.code@) != user
                && contains_text(
                lowercase_text(r.slots@[k]->0.code@),
                lowercase_text(trimmed(f.opponent_tag@)),
            ),
        trimmed(f.date_from@).len() > 0 ==> r.played_at is Some && first_ten(r.played_at->0@) is Some
            && !precedes(first_ten(r.played_at->0@)->0, trimmed(f.date_from@)),
        trimmed(f.date_to@).len() > 0 ==> r.played_at is Some && first_ten(r.played_at->0@) is Some
            && !precedes(trimmed(f.date_to@), first_ten(r.played_at->0@)->0),
        trimmed(f.added_from@).len() > 0 ==> first_ten(r.ingested_at@) is Some && !precedes(
            first_ten(r.ingested_at@)->0,
            trimmed(f.added_from@),
        ),
        trimmed(f.added_to@).len() > 0 ==> first_ten(r.ingested_at@) is Some && !precedes(
            trimmed(f.added_to@),
            first_ten(r.ingested_at@)->0,
        ),
{
    if f.character is Some {
        let k = choose|k: int| #[trigger] is_pick(r, k, f.character->0, user, true);
        assert(k == 0 || k == 1 || k == 2 || k == 3);
    }
    if f.opp_character is Some {
        let k = choose|k: int| #[trigger] is_pick(r, k, f.opp_character->0, user, false);
        assert(k == 0 || k == 1 || k == 2 || k == 3);
    }
    if trimmed(f.opponent_tag@).len() > 0 {
        let k = choose|k: int| #[trigger]
            is_tagged(r, k, lowercase_text(trimmed(f.opponent_tag@)), user);
        assert(r.slots@[k] is Some);
    }
}

/// A filter with one part shows every row of which that part holds.
pub proof fn one_part_hides_no_more(f: LibraryFilter, r: ReplayRow, user: Option<Seq<char>>, k: int)
    requires
        0 <= k < 4,
    ensures
        f.character is Some && plays(r.slots@[k], f.character->0, user, true) && !(LibraryFilter {
            character: None,
            ..f
        }).is_active() ==> f.shows(r, user),
        f.opp_character is Some && plays(r.slots@[k], f.opp_character->0, user, false) && !(
        LibraryFilter { opp_character: None, ..f }).is_active() ==> f.shows(r, user),
        f.stage == Some(r.stage_id) && !(LibraryFilter { stage: None, ..f }).is_active() ==> f.shows(
            r,
            user,
        ),
        f.outcome == OutcomeFilter::Wins && r.user_won == Some(true) && !(LibraryFilter {
            outcome: OutcomeFilter::All,
            ..f
        }).is_active() ==> f.shows(r, user),
        f.outcome == OutcomeFilter::Losses && r.user_won == Some(false) && !(LibraryFilter {
            outcome: OutcomeFilter::All,
            ..f
        }).is_active() ==> f.shows(r, user),
        r.slots@[k] is Some && Some(r.slots@[k]->0.code@) != user && contains_text(
            lowercase_text(r.slots@[k]->0.code@),
            lowercase_text(trimmed(f.opponent_tag@)),
        ) && f.character is None && f.opp_character is None && f.stage is None && f.outcome
            == OutcomeFilter::All && !f.limits_played() && !f.limits_added() ==> f.shows(r, user),
{
    if f.character is Some && plays(r.slots@[k], f.character->0, user, true) {
        assert(is_pick(r, k, f.character->0, user, true));
    }
    if f.opp_character is Some && plays(r.slots@[k], f.opp_character->0, user, false) {
        assert(is_pick(r, k, f.opp_character->0, user, false));
    }
    if r.slots@[k] is Some && Some(r.slots@[k]->0.code@) != user && contains_text(
        lowercase_text(r.slots@[k]->0.code@),
        lowercase_text(trimmed(f.opponent_tag@)),
    ) {
        assert(is_tagged(r, k, lowercase_text(trimmed(f.opponent_tag@)), user));
    }
}

/// A filter with nothing but dates shows every row whose dates lie within them.
pub proof fn dates_hide_no_more(f: LibraryFilter, r: ReplayRow, user: Option<Seq<char>>)
    requires
        f.character is None,
        f.opp_character is None,
        f.stage is None,
        f.outcome == OutcomeFilter::All,
        trimmed(f.opponent_tag@).len() == 0,
        f.limits_played() ==> r.played_at is Some && first_ten(r.played_at->0@) is Some,
        f.limits_added() ==> first_ten(r.ingested_at@) is Some,
        trimmed(f.date_from@).len() > 0 ==> !precedes(
            first_ten(r.played_at->0@)->0,
            trimmed(f.date_from@),
        ),
        trimmed(f.date_to@).len() > 0 ==> !precedes(
            trimmed(f.date_to@),
            first_ten(r.played_at->0@)->0,
        ),
        trimmed(f.added_from@).len() > 0 ==> !precedes(
            first_ten(r.ingested_at@)->0,
            trimmed(f.added_from@),
        ),
        trimmed(f.added_to@).len() > 0 ==> !precedes(
            trimmed(f.added_to@),
            first_ten(r.ingested_at@)->0,
        ),
    ensures
        f.shows(r, user),
{
}

/// Whether every part that is set in `f` is set in the same way in `g`.
pub open spec fn narrows(g: LibraryFilter, f: LibraryFilter) -> bool {
    &&& f.character is None || f.character == g.character
    &&& f.opp_character is None || f.opp_character == g.opp_character
    &&& f.stage is None || f.stage == g.stage
    &&& f.outcome == OutcomeFilter::All || f.outcome == g.outcome
    &&& same_or_blank(f.date_from@, g.date_from@)
    &&& same_or_blank(f.date_to@, g.date_to@)
    &&& same_or_blank(f.added_from@, g.added_from@)
    &&& same_or_blank(f.added_to@, g.added_to@)
    &&& same_or_blank(f.opponent_tag@, g.opponent_tag@)
}

/// Whether text is blank or, but for the white space around it, the other.
pub open spec fn same_or_blank(a: Seq<char>, b: Seq<char>) -> bool {
    trimmed(a).len() == 0 || trimmed(a) == trimmed(b)
}

/// To set one more part, or several, never shows a row that was hidden.
pub proof fn more_parts_show_no_more(
    g: LibraryFilter,
    f: LibraryFilter,
    r: ReplayRow,
    user: Option<Seq<char>>,
)
    requires
        narrows(g, f),
        g.shows(r, user),
    ensures
        f.shows(r, user),
{
}

/// A row passes two filters together exactly where it passes each of them: of a
/// filter whose parts all are parts of `f` or of `g`.
pub proof fn filters_put_together_show_what_both_show(
    both: LibraryFilter,
    f: LibraryFilter,
    g: LibraryFilter,
    r: ReplayRow,
    user: Option<Seq<char>>,
)
    requires
        narrows(both, f),
        narrows(both, g),
        both.character == f.character || both.character == g.character,
        both.opp_character == f.opp_character || both.opp_character == g.opp_character,
        both.stage == f.stage || both.stage == g.stage,
        both.outcome == f.outcome || both.outcome == g.outcome,
        trimmed(both.date_from@) == trimmed(f.date_from@) || trimmed(both.date_from@) == trimmed(
            g.date_from@,
        ),
        trimmed(both.date_to@) == trimmed(f.date_to@) || trimmed(both.date_to@) == trimmed(
            g.date_to@,
        ),
        trimmed(both.added_from@) == trimmed(f.added_from@) || trimmed(both.added_from@) == trimmed(
            g.added_from@,
        ),
        trimmed(both.added_to@) == trimmed(f.added_to@) || trimmed(both.added_to@) == trimmed(
            g.added_to@,
        ),
        trimmed(both.opponent_tag@) == trimmed(f.opponent_tag@) || trimmed(both.opponent_tag@)
            == trimmed(g.opponent_tag@),
    ensures
        both.shows(r, user) <==> f.shows(r, user) && g.shows(r, user),
{
}

/// White space alone sets no part, and any other text does.
pub proof fn blank_texts_set_no_part(f: LibraryFilter)
    requires
        f.character is None,
        f.opp_character is None,
        f.stage is None,
        f.outcome == OutcomeFilter::All,
    ensures
        f.is_active() <==> !(is_blank(f.date_from@) && is_blank(f.date_to@) && is_blank(f.added_from@)
            && is_blank(f.added_to@) && is_blank(f.opponent_tag@)),
{
    blank_text_is_white(f.date_from@);
    blank_text_is_white(f.date_to@);
    blank_text_is_white(f.added_from@);
    blank_text_is_white(f.added_to@);
    blank_text_is_white(f.opponent_tag@);
}

/// Whether text is nothing but white space.
pub open spec fn is_blank(s: Seq<char>) -> bool {
    forall|k: int| 0 <= k < s.len() ==> is_white(#[trigger] s[k])
}

/// A filter with a selector or an outcome is active.
pub proof fn any_part_makes_a_filter_active(f: LibraryFilter)
    ensures
        f.character is Some || f.opp_character is Some || f.stage is Some || f.outcome
            != OutcomeFilter::All ==> f.is_active(),
{
}

/// Filters that differ in a part, or summaries for different codes, have
/// different keys.
pub proof fn keys_tell_filters_apart(
    f: LibraryFilter,
    g: LibraryFilter,
    a: Seq<char>,
    b: Seq<char>,
)
    ensures
        f.key_for(a) == g.key_for(b) <==> a == b && f.character == g.character && f.opp_character
            == g.opp_character && f.stage == g.stage && f.outcome == g.outcome && trimmed(
            f.date_from@,
        ) == trimmed(g.date_from@) && trimmed(f.date_to@) == trimmed(g.date_to@) && trimmed(
            f.added_from@,
        ) == trimmed(g.added_from@) && trimmed(f.added_to@) == trimmed(g.added_to@) && trimmed(
            f.opponent_tag@,
        ) == trimmed(g.opponent_tag@),
{
}

/// The places that are shown run upwards: the rows keep their order, and none
/// is shown twice.
pub proof fn shown_places_run_upwards(
    f: LibraryFilter,
    rows: Seq<ReplayRow>,
    user: Option<Seq<char>>,
    n: int,
)
    requires
        0 <= n <= rows.len(),
        n <= usize::MAX,
    ensures
        forall|a: int, b: int|
            0 <= a < b < shown_places(f, rows, user, n).len() ==> (#[trigger] shown_places(
                f,
                rows,
                user,
                n,
            )[a]) < (#[trigger] shown_places(f, rows, user, n)[b]),
    decreases n,
{
    if n > 0 {
        shown_places_run_upwards(f, rows, user, n - 1);
        shown_places_are_the_rows_that_pass(f, rows, user, n - 1);
        let before = shown_places(f, rows, user, n - 1);
        let now = shown_places(f, rows, user, n);
        assert forall|a: int, b: int| 0 <= a < b < now.len() implies (#[trigger] now[a]) < (
        #[trigger] now[b]) by {
            assert(now[a] == before[a]);
            assert(before[a] < n - 1);
            if b < before.len() {
                assert(now[b] == before[b]);
            }
        }
    }
}

/// The ids that the statistics count are those of the rows that are shown, one
/// for each, in their order.
pub proof fn ids_are_those_of_the_shown(
    f: LibraryFilter,
    rows: Seq<ReplayRow>,
    user: Option<Seq<char>>,
    i: int,
)
    requires
        0 <= i < rows.len(),
        rows.len() <= usize::MAX,
    ensures
        ({
            let ids = ids_at(rows, shown_places(f, rows, user, rows.len() as int));
            &&& f.shows(rows[i], user) ==> ids.contains(rows[i].game_id)
            &&& ids.contains(rows[i].game_id) ==> exists|j: int|
                0 <= j < rows.len() && f.shows(#[trigger] rows[j], user) && rows[j].game_id
                    == rows[i].game_id
        }),
{
    let n = rows.len() as int;
    let places = shown_places(f, rows, user, n);
    let ids = ids_at(rows, places);
    shown_places_are_the_rows_that_pass(f, rows, user, n);
    if f.shows(rows[i], user) {
        assert(places.contains(i as usize));
        let k = choose|k: int| 0 <= k < places.len() && places[k] == (i as usize);
        assert(ids[k] == rows[i].game_id);
    }
    if ids.contains(rows[i].game_id) {
        let k = choose|k: int| 0 <= k < ids.len() && ids[k] == rows[i].game_id;
        let j = places[k] as int;
        assert(places.contains(j as usize));
        assert(f.shows(rows[j], user));
    }
}

proof fn lemma_strung_parts(parts: Seq<Seq<char>>, sep: Seq<char>, i: int)
    requires
        0 <= i < parts.len(),
    ensures
        contains_text(strung(parts, sep), parts[i]),
    decreases parts.len(),
{
    let none = Seq::<char>::empty();
    if parts.len() == 1 {
        text_holds_its_parts(none, parts[0], none);
        assert(none + parts[0] + none =~= parts[0]);
    } else if i == parts.len() - 1 {
        let before = strung(parts.drop_last(), sep) + sep;
        text_holds_its_parts(before, parts.last(), none);
        assert(before + parts.last() + none =~= before + parts.last());
    } else {
        lemma_strung_parts(parts.drop_last(), sep, i);
        let front = strung(parts.drop_last(), sep);
        let (a, b) = held_text_is_a_part(front, parts[i]);
        text_holds_its_parts(a, parts[i], b + sep + parts.last());
        assert(a + parts[i] + (b + sep + parts.last()) =~= front + sep + parts.last());
    }
}

/// The description of a filter tells of every part that is set.
pub proof fn descriptions_tell_every_part(f: LibraryFilter)
    ensures
        !f.is_active() ==> description(f) == "Your whole history"@,
        f.character is Some ==> contains_text(description(f), character_words(f.character)),
        f.opp_character is Some ==> contains_text(
            description(f),
            "vs "@ + character_words(f.opp_character),
        ),
        f.stage is Some ==> contains_text(description(f), stage_words(f.stage)),
        f.outcome != OutcomeFilter::All ==> contains_text(description(f), f.outcome.text()),
        trimmed(f.opponent_tag@).len() > 0 ==> contains_text(
            description(f),
            "vs "@ + trimmed(f.opponent_tag@),
        ),
        f.limits_played() ==> contains_text(
            description(f),
            span_words("played"@, f.date_from@, f.date_to@)->0,
        ),
        f.limits_added() ==> contains_text(
            description(f),
            span_words("added"@, f.added_from@, f.added_to@)->0,
        ),
{
    let parts = description_parts(f);
    assert forall|i: int| 0 <= i < parts.len() && f.is_active() implies contains_text(
        description(f),
        #[trigger] parts[i],
    ) by {
        lemma_strung_parts(parts, " · "@, i);
    }
    let n1: int = if f.character is Some {
        1
    } else {
        0
    };
    let n2: int = n1 + if f.opp_character is Some {
        1int
    } else {
        0
    };
    let n3: int = n2 + if f.stage is Some {
        1int
    } else {
        0
    };
    let n4: int = n3 + if f.outcome != OutcomeFilter::All {
        1int
    } else {
        0
    };
    let n5: int = n4 + if trimmed(f.opponent_tag@).len() > 0 {
        1int
    } else {
        0
    };
    let n6: int = n5 + if f.limits_played() {
        1int
    } else {
        0
    };
    if f.character is Some {
        assert(parts[0] == character_words(f.character));
    }
    if f.opp_character is Some {
        assert(parts[n1] == "vs "@ + character_words(f.opp_character));
    }
    if f.stage is Some {
        assert(parts[n2] == stage_words(f.stage));
    }
    if f.outcome != OutcomeFilter::All {
        assert(parts[n3] == f.outcome.text());
    }
    if trimmed(f.opponent_tag@).len() > 0 {
        assert(parts[n4] == "vs "@ + trimmed(f.opponent_tag@));
    }
    if f.limits_played() {
        assert(parts[n5] == span_words("played"@, f.date_from@, f.date_to@)->0);
    }
    if f.limits_added() {
        assert(parts[n6] == span_words("added"@, f.added_from@, f.added_to@)->0);
    }
}

/// A range in words has its two ends, each as it was typed but for the white
/// space around it, and a range without ends has no words.
pub proof fn ranges_tell_their_ends(label: Seq<char>, from: Seq<char>, to: Seq<char>)
    ensures
        span_words(label, from, to) is None <==> trimmed(from).len() == 0 && trimmed(to).len() == 0,
        trimmed(from).len() > 0 && trimmed(to).len() > 0 ==> span_words(label, from, to) == Some(
            label + " "@ + trimmed(from) + "–"@ + trimmed(to),
        ),
        trimmed(from).len() > 0 && trimmed(to).len() == 0 ==> span_words(label, from, to) == Some(
            label + " "@ + trimmed(from) + "–"@ + "…"@,
        ),
        trimmed(from).len() == 0 && trimmed(to).len() > 0 ==> span_words(label, from, to) == Some(
            label + " "@ + "…"@ + "–"@ + trimmed(to),
        ),
{
}

/// The days of some dates and some more are the days of the first and then those
/// of the others; a date has at most one day.
pub proof fn days_follow_the_dates(xs: Seq<Option<Seq<char>>>, ys: Seq<Option<Seq<char>>>)
    ensures
        ordinals_of(xs + ys) == ordinals_of(xs) + ordinals_of(ys),
        forall|i: int|
            0 <= i < xs.len() && (#[trigger] xs[i] matches Some(d) && text_ordinal(d) is Some)
                ==> ordinals_of(xs).contains(text_ordinal(xs[i]->0)->0),
        ordinals_of(xs).len() <= xs.len(),
    decreases xs.len() + ys.len(),
{
    if ys.len() > 0 {
        days_follow_the_dates(xs, ys.drop_last());
        assert((xs + ys).drop_last() =~= xs + ys.drop_last());
        assert((xs + ys).last() == ys.last());
        assert(ordinals_of(xs + ys) =~= ordinals_of(xs) + ordinals_of(ys));
    } else {
        assert(xs + ys =~= xs);
        assert(ordinals_of(xs) + Seq::<int>::empty() =~= ordinals_of(xs));
        if xs.len() > 0 {
            let front = xs.drop_last();
            let before = ordinals_of(front);
            days_follow_the_dates(front, ys);
            assert forall|i: int|
                0 <= i < xs.len() && (#[trigger] xs[i] matches Some(d) && text_ordinal(d) is Some)
                implies ordinals_of(xs).contains(text_ordinal(xs[i]->0)->0) by {
                if i < xs.len() - 1 {
                    assert(front[i] == xs[i]);
                    let z = text_ordinal(xs[i]->0)->0;
                    let k = choose|k: int| 0 <= k < before.len() && before[k] == z;
                    assert(ordinals_of(xs)[k] == z);
                } else {
                    assert(ordinals_of(xs)[before.len() as int] == text_ordinal(xs[i]->0)->0);
                }
            }
        }
    }
}

/// A filter without dates can judge every row, and one with dates every row
/// whose timestamps can be cut to a date; of each date only its own timestamp
/// matters.
pub proof fn filters_judge_rows_with_dates(f: LibraryFilter, r: ReplayRow)
    ensures
        !f.limits_played() && !f.limits_added() ==> f.can_judge(r),
        r.played_cuts() && r.added_cuts() ==> f.can_judge(r),
        f.limits_played() && !r.played_cuts() ==> !f.can_judge(r),
        f.limits_added() && !r.added_cuts() ==> !f.can_judge(r),
        f.limits_played() <==> trimmed(f.date_from@).len() > 0 || trimmed(f.date_to@).len() > 0,
        f.limits_added() <==> trimmed(f.added_from@).len() > 0 || trimmed(f.added_to@).len() > 0,
{
}

/// A code is offered where it holds what was typed, in either case, and is not
/// just that.
pub proof fn suggestions_hold_what_was_typed(typed: Seq<char>, code: Seq<char>)
    ensures
        lowercase_text(code) == lowercase_text(typed) ==> !offered(typed)(code),
        offered(typed)(code) ==> contains_text(lowercase_text(code), lowercase_text(typed)),
        lowercase_text(code) != lowercase_text(typed) && contains_text(
            lowercase_text(code),
            lowercase_text(typed),
        ) ==> offered(typed)(code),
{
}

/// Everyone with a code in any slot of any row is an opponent, but for the user;
/// nobody else is.
pub proof fn everyone_else_is_an_opponent(
    rows: Seq<ReplayRow>,
    user: Option<Seq<char>>,
    code: Seq<char>,
    i: int,
    k: int,
)
    requires
        0 <= i < rows.len(),
        0 <= k < 4,
    ensures
        rows[i].slots@[k] is Some && rows[i].slots@[k]->0.code@ == code && code.len() > 0 && user
            != Some(code) ==> is_opponent(rows, user, code),
        user == Some(code) || code.len() == 0 ==> !is_opponent(rows, user, code),
        is_opponent(rows, user, code) ==> exists|a: int, b: int|
            0 <= a < rows.len() && 0 <= b < 4 && (#[trigger] rows[a].slots@[b]) is Some
                && rows[a].slots@[b]->0.code@ == code,
{
    if rows[i].slots@[k] is Some && rows[i].slots@[k]->0.code@ == code && code.len() > 0 && user
        != Some(code) {
        assert(opponent_at(rows, user, i, k, code));
    }
    if is_opponent(rows, user, code) {
        let (a, b) = choose|a: int, b: int| #[trigger] opponent_at(rows, user, a, b, code);
        assert(rows[a].slots@[b] is Some);
    }
}

/// A code stands for a user exactly where it has something other than white
/// space.
pub proof fn blank_codes_stand_for_nobody(code: Seq<char>)
    ensures
        user_of(code) is None <==> is_blank(code),
        user_of(code) is Some ==> user_of(code)->0 == trimmed(code),
{
    blank_text_is_white(code);
}

} // verus!
