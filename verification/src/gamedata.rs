//! What a replay tells of a game: who played whom, where, and for how long.
use vstd::prelude::*;
use crate::json::{member, Json};
use crate::text::{
    chars_of, integer_text, opt_text, parse_i32, parsed_integer, push_integer,
};

verus! {

broadcast use {vstd::string::group_string_axioms, vstd::utf8::char_is_scalar};

/// How many stage ids there are.
pub const NUM_STAGES: usize = 33;

/// How many character ids there are.
pub const NUM_CHARACTERS: usize = 33;

/// The name of an internal character id.
pub open spec fn character_text(id: int) -> Option<Seq<char>> {
    if id == 0 {
        Some("Mario"@)
    } else if id == 1 {
        Some("Fox"@)
    } else if id == 2 {
        Some("CaptainFalcon"@)
    } else if id == 3 {
        Some("DonkeyKong"@)
    } else if id == 4 {
        Some("Kirby"@)
    } else if id == 5 {
        Some("Bowser"@)
    } else if id == 6 {
        Some("Link"@)
    } else if id == 7 {
        Some("Sheik"@)
    } else if id == 8 {
        Some("Ness"@)
    } else if id == 9 {
        Some("Peach"@)
    } else if id == 10 {
        Some("Popo"@)
    } else if id == 11 {
        Some("Nana"@)
    } else if id == 12 {
        Some("Pikachu"@)
    } else if id == 13 {
        Some("Samus"@)
    } else if id == 14 {
        Some("Yoshi"@)
    } else if id == 15 {
        Some("Jigglypuff"@)
    } else if id == 16 {
        Some("Mewtwo"@)
    } else if id == 17 {
        Some("Luigi"@)
    } else if id == 18 {
        Some("Marth"@)
    } else if id == 19 {
        Some("Zelda"@)
    } else if id == 20 {
        Some("YoungLink"@)
    } else if id == 21 {
        Some("DrMario"@)
    } else if id == 22 {
        Some("Falco"@)
    } else if id == 23 {
        Some("Pichu"@)
    } else if id == 24 {
        Some("GameAndWatch"@)
    } else if id == 25 {
        Some("Ganondorf"@)
    } else if id == 26 {
        Some("Roy"@)
    } else if id == 27 {
        Some("MasterHand"@)
    } else if id == 28 {
        Some("CrazyHand"@)
    } else if id == 29 {
        Some("WireFrameMale"@)
    } else if id == 30 {
        Some("WireFrameFemale"@)
    } else if id == 31 {
        Some("GigaBowser"@)
    } else if id == 32 {
        Some("Sandbag"@)
    } else {
        None
    }
}

/// The name of an internal character id.
pub fn character_name(id: i32) -> (r: Option<&'static str>)
    ensures
        match r {
            Some(s) => character_text(id as int) == Some(s@),
            None => character_text(id as int) is None,
        },
        r is Some <==> 0 <= id < 33,
{
    match id {
        0 => Some("Mario"),
        1 => Some("Fox"),
        2 => Some("CaptainFalcon"),
        3 => Some("DonkeyKong"),
        4 => Some("Kirby"),
        5 => Some("Bowser"),
        6 => Some("Link"),
        7 => Some("Sheik"),
        8 => Some("Ness"),
        9 => Some("Peach"),
        10 => Some("Popo"),
        11 => Some("Nana"),
        12 => Some("Pikachu"),
        13 => Some("Samus"),
        14 => Some("Yoshi"),
        15 => Some("Jigglypuff"),
        16 => Some("Mewtwo"),
        17 => Some("Luigi"),
        18 => Some("Marth"),
        19 => Some("Zelda"),
        20 => Some("YoungLink"),
        21 => Some("DrMario"),
        22 => Some("Falco"),
        23 => Some("Pichu"),
        24 => Some("GameAndWatch"),
        25 => Some("Ganondorf"),
        26 => Some("Roy"),
        27 => Some("MasterHand"),
        28 => Some("CrazyHand"),
        29 => Some("WireFrameMale"),
        30 => Some("WireFrameFemale"),
        31 => Some("GigaBowser"),
        32 => Some("Sandbag"),
        _ => None,
    }
}

/// The name of a stage id.
pub open spec fn stage_text(id: int) -> Option<Seq<char>> {
    if id == 0 {
        Some("Dummy"@)
    } else if id == 1 {
        Some("Test"@)
    } else if id == 2 {
        Some("FountainOfDreams"@)
    } else if id == 3 {
        Some("PokemonStadium"@)
    } else if id == 4 {
        Some("PrincessPeachsCastle"@)
    } else if id == 5 {
        Some("KongoJungle"@)
    } else if id == 6 {
        Some("Brinstar"@)
    } else if id == 7 {
        Some("Corneria"@)
    } else if id == 8 {
        Some("YoshisStory"@)
    } else if id == 9 {
        Some("Onett"@)
    } else if id == 10 {
        Some("MuteCity"@)
    } else if id == 11 {
        Some("RainbowCruise"@)
    } else if id == 12 {
        Some("JungleJapes"@)
    } else if id == 13 {
        Some("GreatBay"@)
    } else if id == 14 {
        Some("HyruleTemple"@)
    } else if id == 15 {
        Some("BrinstarDepths"@)
    } else if id == 16 {
        Some("YoshisIsland"@)
    } else if id == 17 {
        Some("GreenGreens"@)
    } else if id == 18 {
        Some("Fourside"@)
    } else if id == 19 {
        Some("MushroomKingdomI"@)
    } else if id == 20 {
        Some("MushroomKingdomII"@)
    } else if id == 21 {
        Some("Akaneia"@)
    } else if id == 22 {
        Some("Venom"@)
    } else if id == 23 {
        Some("PokeFloats"@)
    } else if id == 24 {
        Some("BigBlue"@)
    } else if id == 25 {
        Some("IcicleMountain"@)
    } else if id == 26 {
        Some("Icetop"@)
    } else if id == 27 {
        Some("FlatZone"@)
    } else if id == 28 {
        Some("DreamLandN64"@)
    } else if id == 29 {
        Some("YoshisIslandN64"@)
    } else if id == 30 {
        Some("KongoJungleN64"@)
    } else if id == 31 {
        Some("Battlefield"@)
    } else if id == 32 {
        Some("FinalDestination"@)
    } else {
        None
    }
}

/// The name of a stage id.
pub fn stage_name(id: i32) -> (r: Option<&'static str>)
    ensures
        match r {
            Some(s) => stage_text(id as int) == Some(s@),
            None => stage_text(id as int) is None,
        },
        r is Some <==> 0 <= id < 33,
{
    match id {
        0 => Some("Dummy"),
        1 => Some("Test"),
        2 => Some("FountainOfDreams"),
        3 => Some("PokemonStadium"),
        4 => Some("PrincessPeachsCastle"),
        5 => Some("KongoJungle"),
        6 => Some("Brinstar"),
        7 => Some("Corneria"),
        8 => Some("YoshisStory"),
        9 => Some("Onett"),
        10 => Some("MuteCity"),
        11 => Some("RainbowCruise"),
        12 => Some("JungleJapes"),
        13 => Some("GreatBay"),
        14 => Some("HyruleTemple"),
        15 => Some("BrinstarDepths"),
        16 => Some("YoshisIsland"),
        17 => Some("GreenGreens"),
        18 => Some("Fourside"),
        19 => Some("MushroomKingdomI"),
        20 => Some("MushroomKingdomII"),
        21 => Some("Akaneia"),
        22 => Some("Venom"),
        23 => Some("PokeFloats"),
        24 => Some("BigBlue"),
        25 => Some("IcicleMountain"),
        26 => Some("Icetop"),
        27 => Some("FlatZone"),
        28 => Some("DreamLandN64"),
        29 => Some("YoshisIslandN64"),
        30 => Some("KongoJungleN64"),
        31 => Some("Battlefield"),
        32 => Some("FinalDestination"),
        _ => None,
    }
}

/// Whether a character is one of `A` to `Z`.
pub open spec fn is_upper(c: char) -> bool {
    65 <= c as u32 <= 90
}

/// Whether a character is one of `a` to `z`.
pub open spec fn is_lower(c: char) -> bool {
    97 <= c as u32 <= 122
}

/// A name in camel case with a space wherever a capital follows a small letter.
pub open spec fn spaced(s: Seq<char>) -> Seq<char>
    decreases s.len(),
{
    if s.len() == 0 {
        s
    } else if s.len() > 1 && is_upper(s.last()) && is_lower(s[s.len() - 2]) {
        spaced(s.drop_last()).push(' ').push(s.last())
    } else {
        spaced(s.drop_last()).push(s.last())
    }
}

/// A name in camel case with a space wherever a capital follows a small letter.
pub fn spaced_name(name: &str) -> (r: String)
    ensures
        r@ == spaced(name@),
{
    let v = chars_of(name);
    let mut out = String::new();
    let mut i: usize = 0;
    while i < v.len()
        invariant
            v@ == name@,
            i <= v.len(),
            out@ == spaced(name@.take(i as int)),
        decreases v.len() - i,
    {
        let code: u32 = v[i] as u32;
        assert(name@.take(i + 1).drop_last() =~= name@.take(i as int));
        if i > 0 && 65 <= code && code <= 90 {
            let before: u32 = v[i - 1] as u32;
            if 97 <= before && before <= 122 {
                out.push(' ');
            }
        }
        out.push(v[i]);
        i += 1;
    }
    assert(name@.take(i as int) =~= name@);
    out
}

/// The name of an attack, by its id.
#[derive(Debug)]
pub struct AttackName {
    pub id: i32,
    pub name: String,
}

/// The name that a table gives an attack, or its number.
pub open spec fn attack_text(names: Seq<AttackName>, id: i32) -> Seq<char>
    decreases names.len(),
{
    if names.len() == 0 {
        "attack #"@ + integer_text(id as int)
    } else if names[0].id == id {
        names[0].name@
    } else {
        attack_text(names.drop_first(), id)
    }
}

/// The name that a table gives an attack, or its number.
pub fn attack_display_name(names: &Vec<AttackName>, id: i32) -> (r: String)
    ensures
        r@ == attack_text(names@, id),
{
    let mut i: usize = 0;
    assert(names@.skip(0) =~= names@);
    while i < names.len()
        invariant
            i <= names.len(),
            attack_text(names@, id) == attack_text(names@.skip(i as int), id),
        decreases names.len() - i,
    {
        if names[i].id == id {
            return names[i].name.clone();
        }
        assert(names@.skip(i as int).drop_first() =~= names@.skip(i + 1));
        i += 1;
    }
    let mut out = "attack #".to_owned();
    push_integer(&mut out, id as i64);
    out
}

/// A controller port.
#[derive(Clone, Copy, Debug, PartialEq, Eq, Structural)]
pub enum Port {
    P0,
    P1,
    P2,
    P3,
}

impl Port {
    pub open spec fn index(self) -> int {
        match self {
            Port::P0 => 0,
            Port::P1 => 1,
            Port::P2 => 2,
            Port::P3 => 3,
        }
    }

    /// The key of the port among a replay's players.
    pub open spec fn key_text(self) -> Seq<char> {
        match self {
            Port::P0 => "0"@,
            Port::P1 => "1"@,
            Port::P2 => "2"@,
            Port::P3 => "3"@,
        }
    }

    /// The number of the port, from 0.
    pub fn number(self) -> (n: i32)
        ensures
            n == self.index(),
    {
        match self {
            Port::P0 => 0,
            Port::P1 => 1,
            Port::P2 => 2,
            Port::P3 => 3,
        }
    }

    /// The port of that number.
    pub fn from_number(n: i32) -> (r: Option<Port>)
        ensures
            match r {
                Some(p) => p.index() == n,
                None => !(0 <= n < 4),
            },
    {
        match n {
            0 => Some(Port::P0),
            1 => Some(Port::P1),
            2 => Some(Port::P2),
            3 => Some(Port::P3),
            _ => None,
        }
    }

    /// The number of the port as text.
    pub fn text(self) -> (s: &'static str)
        ensures
            s@ == self.key_text(),
    {
        match self {
            Port::P0 => "0",
            Port::P1 => "1",
            Port::P2 => "2",
            Port::P3 => "3",
        }
    }
}

/// A player of one game, as the replay's metadata names them.
#[derive(Debug)]
pub struct SlippiPlayer {
    pub netplay: String,
    pub code: String,
    pub character: i32,
    pub port: Port,
}

pub open spec fn frames_at(v: Seq<(String, Json)>, i: int) -> int {
    match v[i].1 {
        Json::Number(Some(n)) => n as int,
        _ => 0,
    }
}

/// Whether every member is a count of frames.
pub open spec fn all_counts(v: Seq<(String, Json)>) -> bool {
    forall|i: int| 0 <= i < v.len() ==> (#[trigger] v[i]).1 matches Json::Number(Some(_))
}

/// Whether member `i` is the first with the most frames, and has any.
pub open spec fn is_main(v: Seq<(String, Json)>, i: int) -> bool {
    &&& 0 <= i < v.len()
    &&& frames_at(v, i) > 0
    &&& forall|j: int|
        0 <= j < v.len() ==> #[trigger] frames_at(v, j) <= frames_at(v, i) && (j < i ==> frames_at(
            v,
            j,
        ) < frames_at(v, i))
}

/// The character that was played for most frames.
pub open spec fn main_character(v: Seq<(String, Json)>) -> Option<int> {
    if all_counts(v) && exists|i: int| is_main(v, i) {
        parsed_integer(v[choose|i: int| is_main(v, i)].0@)
    } else {
        None
    }
}

/// The member of that name, where there is a value and it has one.
pub open spec fn within(j: Option<Json>, key: Seq<char>) -> Option<Json> {
    match j {
        Some(x) => member(x, key),
        None => None,
    }
}

/// The metadata of the player at a port.
pub open spec fn player_node(metadata: Json, port: Port) -> Option<Json> {
    within(member(metadata, "players"@), port.key_text())
}

pub open spec fn text_of_node(j: Option<Json>) -> Option<Seq<char>> {
    match j {
        Some(Json::Text(s)) => Some(s@),
        _ => None,
    }
}

/// The netplay name, the code and the character of the player at a port.
pub open spec fn player_facts(metadata: Json, port: Port) -> Option<(Seq<char>, Seq<char>, int)> {
    let node = player_node(metadata, port);
    match (
        text_of_node(within(within(node, "names"@), "netplay"@)),
        text_of_node(within(within(node, "names"@), "code"@)),
        within(node, "characters"@),
    ) {
        (Some(netplay), Some(code), Some(Json::Object(v))) => match main_character(v@) {
            Some(c) => if i32::MIN <= c <= i32::MAX {
                Some((netplay, code, c))
            } else {
                None
            },
            None => None,
        },
        _ => None,
    }
}

/// The key of the member with the most frames.
fn most_played(v: &Vec<(String, Json)>) -> (r: Option<i32>)
    ensures
        r == (match main_character(v@) {
            Some(c) => if i32::MIN <= c <= i32::MAX {
                Some(c as i32)
            } else {
                None
            },
            None => None,
        }),
{
    let mut best: Option<usize> = None;
    let mut frames: u64 = 0;
    let mut i: usize = 0;
    while i < v.len()
        invariant
            i <= v.len(),
            forall|k: int| 0 <= k < i ==> (#[trigger] v@[k]).1 matches Json::Number(Some(_)),
            forall|k: int| 0 <= k < i ==> #[trigger] frames_at(v@, k) <= frames,
            match best {
                Some(b) => b < i && frames_at(v@, b as int) == frames && frames > 0 && forall|k: int|
                    0 <= k < b ==> #[trigger] frames_at(v@, k) < frames,
                None => frames == 0,
            },
        decreases v.len() - i,
    {
        let current: u64 = match &v[i].1 {
            Json::Number(Some(n)) => *n,
            _ => {
                return None;
            },
        };
        assert(frames_at(v@, i as int) == current);
        if current > frames {
            best = Some(i);
            frames = current;
        }
        i += 1;
    }
    match best {
        Some(b) => {
            proof {
                assert(is_main(v@, b as int));
                let c = choose|i: int| is_main(v@, i);
                assert(frames_at(v@, c) <= frames_at(v@, b as int));
                assert(c == b);
            }
            parse_i32(v[b].0.as_str())
        },
        None => {
            proof {
                assert forall|i: int| !is_main(v@, i) by {
                    if is_main(v@, i) {
                        assert(frames_at(v@, i) <= 0);
                    }
                }
            }
            None
        },
    }
}

fn member_of<'a>(j: Option<&'a Json>, key: &str) -> (r: Option<&'a Json>)
    ensures
        match r {
            Some(x) => j is Some && member(*j->0, key@) == Some(*x),
            None => j is None || member(*j->0, key@) is None,
        },
{
    match j {
        Some(x) => x.get(key),
        None => None,
    }
}

impl SlippiPlayer {
    /// The player at a port, where the metadata names one in full: a netplay
    /// name, a code, and for each character a count of frames.
    pub fn new_slippi_player(metadata: &Json, port: Port) -> (r: Option<SlippiPlayer>)
        requires
            member(*metadata, "players"@) is Some,
        ensures
            match r {
                Some(p) => player_facts(*metadata, port) == Some(
                    (p.netplay@, p.code@, p.character as int),
                ) && p.port == port,
                None => player_facts(*metadata, port) is None,
            },
    {
        let player = member_of(metadata.get("players"), port.text());
        let names = member_of(player, "names");
        let netplay = match member_of(names, "netplay") {
            Some(Json::Text(n)) => n.clone(),
            _ => {
                return None;
            },
        };
        let code = match member_of(names, "code") {
            Some(Json::Text(c)) => c.clone(),
            _ => {
                return None;
            },
        };
        let characters = match member_of(player, "characters") {
            Some(Json::Object(v)) => v,
            _ => {
                return None;
            },
        };
        match most_played(characters) {
            Some(character) => Some(SlippiPlayer { netplay, code, character, port }),
            None => None,
        }
    }

    pub fn netplay(&self) -> (r: &str)
        ensures
            r@ == self.netplay@,
    {
        self.netplay.as_str()
    }

    pub fn code(&self) -> (r: &str)
        ensures
            r@ == self.code@,
    {
        self.code.as_str()
    }

    pub fn character(&self) -> (r: i32)
        ensures
            r == self.character,
    {
        self.character
    }

    pub fn port(&self) -> (r: Port)
        ensures
            r == self.port,
    {
        self.port
    }
}

/// What is read from a replay file.
pub struct Replay {
    /// The metadata, where the file has any.
    pub metadata: Option<Json>,
    pub stage: u16,
    /// How many frames were recorded.
    pub frames: usize,
}

/// Why a replay gives no game.
#[derive(Clone, Copy, Debug, PartialEq, Eq, Structural)]
pub enum GameDataError {
    NoMetadata,
    BadLength,
}

impl GameDataError {
    pub fn message(self) -> (s: &'static str)
        ensures
            s@ == (match self {
                GameDataError::NoMetadata => "no metadata found"@,
                GameDataError::BadLength => "can't parse game length"@,
            }),
    {
        match self {
            GameDataError::NoMetadata => "no metadata found",
            GameDataError::BadLength => "can't parse game length",
        }
    }
}

/// A game: the players by port, the stage, and the length in seconds.
#[derive(Debug)]
pub struct GameData {
    pub placements: [Option<SlippiPlayer>; 4],
    pub stage: i32,
    pub time: i32,
}

/// When a game was played, where its metadata says so in words.
pub open spec fn start_text(metadata: Option<Json>) -> Option<Seq<char>> {
    match metadata {
        Some(m) => match member(m, "startAt"@) {
            Some(Json::Text(s)) => Some(s@),
            _ => None,
        },
        None => None,
    }
}

/// When a game was played, where its replay says so.
pub fn started_at(replay: &Replay) -> (r: Option<String>)
    ensures
        opt_text(r) == start_text(replay.metadata),
{
    match &replay.metadata {
        Some(m) => match m.get("startAt") {
            Some(Json::Text(s)) => Some(s.clone()),
            _ => None,
        },
        None => None,
    }
}

/// How many frames are recorded before a game starts.
pub const PRE_GAME_FRAMES: usize = 123;

/// The whole seconds that a game of so many recorded frames took, at sixty
/// frames a second, once it had started.
pub open spec fn seconds_of(frames: int) -> int {
    if frames < PRE_GAME_FRAMES {
        0
    } else {
        (frames - PRE_GAME_FRAMES) / 60
    }
}

/// Whether `p` is the player that the metadata names at a port.
pub open spec fn is_player(metadata: Json, port: Port, p: Option<SlippiPlayer>) -> bool {
    match p {
        Some(p) => player_facts(metadata, port) == Some((p.netplay@, p.code@, p.character as int))
            && p.port == port,
        None => player_facts(metadata, port) is None,
    }
}

impl GameData {
    /// The game that a replay holds.
    pub fn new_gamedata(game: &Replay) -> (r: Result<GameData, GameDataError>)
        requires
            game.metadata matches Some(m) ==> member(m, "players"@) is Some,
        ensures
            r matches Err(e) ==> e == (if game.metadata is None {
                GameDataError::NoMetadata
            } else {
                GameDataError::BadLength
            }),
            r is Ok <==> game.metadata is Some && seconds_of(game.frames as int) <= i32::MAX,
            r matches Ok(g) ==> {
                &&& is_player(game.metadata->0, Port::P0, g.placements@[0])
                &&& is_player(game.metadata->0, Port::P1, g.placements@[1])
                &&& is_player(game.metadata->0, Port::P2, g.placements@[2])
                &&& is_player(game.metadata->0, Port::P3, g.placements@[3])
                &&& g.stage == game.stage
                &&& g.time == seconds_of(game.frames as int)
            },
    {
        let metadata = match &game.metadata {
            Some(m) => m,
            None => {
                return Err(GameDataError::NoMetadata);
            },
        };
        let placements = [
            SlippiPlayer::new_slippi_player(metadata, Port::P0),
            SlippiPlayer::new_slippi_player(metadata, Port::P1),
            SlippiPlayer::new_slippi_player(metadata, Port::P2),
            SlippiPlayer::new_slippi_player(metadata, Port::P3),
        ];
        match Self::game_len(game) {
            Ok(time) => Ok(GameData { placements, stage: game.stage as i32, time }),
            Err(e) => Err(e),
        }
    }

    pub fn placements(&self) -> (r: &[Option<SlippiPlayer>; 4])
        ensures
            *r == self.placements,
    {
        &self.placements
    }

    pub fn stage(&self) -> (r: i32)
        ensures
            r == self.stage,
    {
        self.stage
    }

    pub fn time(&self) -> (r: i32)
        ensures
            r == self.time,
    {
        self.time
    }

    /// The length of a game in whole seconds, without the frames before it.
    pub fn game_len(game: &Replay) -> (r: Result<i32, GameDataError>)
        ensures
            r == (if seconds_of(game.frames as int) <= i32::MAX {
                Ok(seconds_of(game.frames as int) as i32)
            } else {
                Err(GameDataError::BadLength)
            }),
    {
        let played: usize = if game.frames < PRE_GAME_FRAMES {
            0
        } else {
            game.frames - PRE_GAME_FRAMES
        };
        let seconds: usize = played / 60;
        if seconds <= 0x7fff_ffff {
            Ok(seconds as i32)
        } else {
            Err(GameDataError::BadLength)
        }
    }
}

// ------------------------------------------------------------------------ laws

/// Exactly the ids from 0 to 32 have a name, of characters and of stages.
pub proof fn known_ids_have_names(id: int)
    ensures
        character_text(id) is Some <==> 0 <= id <= 32,
        stage_text(id) is Some <==> 0 <= id <= 32,
{
}

/// Anything but a space.
pub open spec fn no_space() -> spec_fn(char) -> bool {
    |c: char| c != ' '
}

/// Spacing puts nothing but spaces into a name.
pub proof fn spacing_adds_spaces_alone(s: Seq<char>)
    ensures
        spaced(s).filter(no_space()) == s.filter(no_space()),
        s.len() <= spaced(s).len(),
        s.len() > 0 ==> spaced(s).last() == s.last() && spaced(s)[0] == s[0],
    decreases s.len(),
{
    let p = no_space();
    if s.len() > 0 {
        let front = s.drop_last();
        spacing_adds_spaces_alone(front);
        reveal(Seq::filter);
        let a = spaced(front);
        let c = s.last();
        assert(a.push(c).drop_last() =~= a);
        assert(a.push(' ').drop_last() =~= a);
        assert(a.push(' ').push(c).drop_last() =~= a.push(' '));
        assert(a.push(c).last() == c && a.push(' ').last() == ' ' && a.push(' ').push(c).last() == c);
        assert(a.push(' ').filter(p) == a.filter(p));
        assert(a.push(' ').push(c).filter(p) == a.push(c).filter(p));
    }
}

/// In a spaced name no capital follows a small letter.
pub proof fn spacing_parts_the_words(s: Seq<char>, i: int)
    requires
        0 < i < spaced(s).len(),
    ensures
        !(97 <= spaced(s)[i - 1] as u32 <= 122 && 65 <= spaced(s)[i] as u32 <= 90),
    decreases s.len(),
{
    if s.len() > 0 {
        let front = s.drop_last();
        let a = spaced(front);
        spacing_adds_spaces_alone(front);
        if i < a.len() {
            spacing_parts_the_words(front, i);
        }
    }
}

/// Of two parts of a name each is spaced by itself, with one more space between
/// them exactly where a capital follows a small letter there.
pub proof fn spacing_works_part_by_part(a: Seq<char>, b: Seq<char>)
    requires
        a.len() > 0,
        b.len() > 0,
    ensures
        97 <= a.last() as u32 <= 122 && 65 <= b[0] as u32 <= 90 ==> spaced(a + b) == spaced(a).push(' ')
            + spaced(b),
        !(97 <= a.last() as u32 <= 122 && 65 <= b[0] as u32 <= 90) ==> spaced(a + b) == spaced(a)
            + spaced(b),
    decreases b.len(),
{
    let all = a + b;
    assert(all.last() == b.last());
    assert(all.drop_last() =~= a + b.drop_last());
    if b.len() == 1 {
        assert(b.drop_last() =~= Seq::<char>::empty());
        assert(a + b.drop_last() =~= a);
        reveal_with_fuel(spaced, 2);
        assert(spaced(b) =~= seq![b[0]]);
        assert(all[all.len() - 2] == a.last());
        assert(spaced(a).push(' ') + spaced(b) =~= spaced(a).push(' ').push(b[0]));
        assert(spaced(a) + spaced(b) =~= spaced(a).push(b[0]));
    } else {
        spacing_works_part_by_part(a, b.drop_last());
        assert(all[all.len() - 2] == b[b.len() - 2]);
        assert(b.drop_last()[0] == b[0]);
        assert(spaced(a).push(' ') + spaced(b) =~= if is_upper(b.last()) && is_lower(b[b.len() - 2]) {
            (spaced(a).push(' ') + spaced(b.drop_last())).push(' ').push(b.last())
        } else {
            (spaced(a).push(' ') + spaced(b.drop_last())).push(b.last())
        });
        assert(spaced(a) + spaced(b) =~= if is_upper(b.last()) && is_lower(b[b.len() - 2]) {
            (spaced(a) + spaced(b.drop_last())).push(' ').push(b.last())
        } else {
            (spaced(a) + spaced(b.drop_last())).push(b.last())
        });
    }
}

/// An attack has the first name that the table gives its id, or, where it gives
/// none, its number.
pub proof fn attacks_have_their_first_name(names: Seq<AttackName>, id: i32)
    ensures
        forall|i: int|
            0 <= i < names.len() && (#[trigger] names[i]).id == id && (forall|j: int|
                0 <= j < i ==> (#[trigger] names[j]).id != id) ==> attack_text(names, id)
                == names[i].name@,
        (forall|i: int| 0 <= i < names.len() ==> (#[trigger] names[i]).id != id) ==> attack_text(
            names,
            id,
        ) == "attack #"@ + integer_text(id as int),
    decreases names.len(),
{
    if names.len() > 0 {
        let rest = names.drop_first();
        attacks_have_their_first_name(rest, id);
        assert forall|i: int| 0 <= i < rest.len() implies #[trigger] rest[i] == names[i + 1] by {}
        if names[0].id != id {
            assert forall|i: int|
                0 <= i < names.len() && (#[trigger] names[i]).id == id && (forall|j: int|
                    0 <= j < i ==> (#[trigger] names[j]).id != id) implies attack_text(names, id)
                == names[i].name@ by {
                assert(rest[i - 1] == names[i]);
                assert forall|j: int| 0 <= j < i - 1 implies (#[trigger] rest[j]).id != id by {
                    assert(names[j + 1].id != id);
                }
            }
            if forall|i: int| 0 <= i < names.len() ==> (#[trigger] names[i]).id != id {
                assert forall|i: int| 0 <= i < rest.len() implies (#[trigger] rest[i]).id != id by {
                    assert(names[i + 1].id != id);
                }
            }
        }
    }
}

/// The character of a player is the one with the most frames, and of several
/// the first.
pub proof fn the_most_played_character_counts(v: Seq<(String, Json)>, i: int, n: u64)
    requires
        0 <= i < v.len(),
        v[i].1 == Json::Number(Some(n)),
        n > 0,
        forall|j: int|
            0 <= j < v.len() ==> ((#[trigger] v[j]).1 matches Json::Number(Some(m)) && m <= n && (j < i
                ==> m < n)),
    ensures
        main_character(v) == parsed_integer(v[i].0@),
{
    assert forall|j: int| 0 <= j < v.len() implies #[trigger] frames_at(v, j) <= frames_at(v, i) && (j
        < i ==> frames_at(v, j) < frames_at(v, i)) by {
        assert(v[j].1 is Number);
    }
    assert(is_main(v, i));
    let c = choose|c: int| is_main(v, c);
    assert(is_main(v, c));
    assert(frames_at(v, c) <= frames_at(v, i));
    assert(frames_at(v, i) <= frames_at(v, c));
}

/// Where a count is no number, or nobody has a frame, there is no character.
pub proof fn no_frames_make_no_character(v: Seq<(String, Json)>)
    ensures
        (exists|j: int| 0 <= j < v.len() && !((#[trigger] v[j]).1 matches Json::Number(Some(_))))
            ==> main_character(v) is None,
        (forall|j: int| 0 <= j < v.len() ==> (#[trigger] v[j]).1 == Json::Number(Some(0)))
            ==> main_character(v) is None,
{
    if forall|j: int| 0 <= j < v.len() ==> (#[trigger] v[j]).1 == Json::Number(Some(0)) {
        assert forall|i: int| !is_main(v, i) by {
            if is_main(v, i) {
                assert(v[i].1 == Json::Number(Some(0)));
            }
        }
    }
}

/// A player is named in full or not at all: with the netplay name and the code
/// that stand under the names of their port, and a character that was played.
pub proof fn players_are_named_in_full(metadata: Json, port: Port, names: Json, characters: Json)
    requires
        member(metadata, "players"@) matches Some(all) && member(all, port.key_text()) matches Some(
            node,
        ) && member(node, "names"@) == Some(names) && member(node, "characters"@) == Some(characters),
    ensures
        player_facts(metadata, port) matches Some((netplay, code, c)) ==> (member(
            names,
            "netplay"@,
        ) matches Some(Json::Text(s)) && s@ == netplay) && (member(names, "code"@) matches Some(
            Json::Text(s),
        ) && s@ == code) && (characters matches Json::Object(v) && main_character(v@) == Some(c)),
        !(member(names, "netplay"@) matches Some(Json::Text(_))) ==> player_facts(metadata, port) is None,
        !(member(names, "code"@) matches Some(Json::Text(_))) ==> player_facts(metadata, port) is None,
        !(characters is Object) ==> player_facts(metadata, port) is None,
{
}

/// Where the metadata has nothing at a port, nobody plays there.
pub proof fn empty_ports_have_no_player(metadata: Json, port: Port)
    requires
        member(metadata, "players"@) matches Some(all) ==> member(all, port.key_text()) is None,
    ensures
        player_facts(metadata, port) is None,
{
}

/// The ports have the numbers from 0 to 3, each its own, and the key of a port
/// is its number.
pub proof fn ports_are_numbered(a: Port, b: Port)
    ensures
        0 <= a.index() <= 3,
        a.index() == b.index() ==> a == b,
        a.key_text() == integer_text(a.index()),
{
    reveal_strlit("0");
    reveal_strlit("1");
    reveal_strlit("2");
    reveal_strlit("3");
    reveal_with_fuel(crate::text::decimal_text, 2);
    assert(a.key_text() =~= integer_text(a.index()));
}

/// A game starts after its first 123 frames, and lasts a second longer for each
/// sixty more.
pub proof fn sixty_frames_make_a_second(frames: int)
    requires
        0 <= frames,
    ensures
        frames < 183 ==> seconds_of(frames) == 0,
        frames >= 123 ==> seconds_of(frames + 60) == seconds_of(frames) + 1,
        seconds_of(frames) <= seconds_of(frames + 1) <= seconds_of(frames) + 1,
{
}

/// When a game was played is what its metadata says at `startAt`, where that is
/// text; without metadata it is not known.
pub proof fn games_start_when_their_metadata_says(metadata: Json, s: String)
    ensures
        member(metadata, "startAt"@) == Some(Json::Text(s)) ==> start_text(Some(metadata)) == Some(s@),
        !(member(metadata, "startAt"@) matches Some(Json::Text(_))) ==> start_text(Some(metadata)) is None,
        start_text(None) is None,
{
}

} // verus!
