//! The page of one game: its facts, and the timeline of who had the advantage.
use vstd::prelude::*;
use std::collections::HashMap;
use crate::analytics::{find_player, missing_id, slot_ids, UnknownPlayer};
use crate::gamedata::{
    attack_display_name, attack_text, character_name, character_text, stage_name, stage_text,
    AttackName,
};
use crate::models::{Game, GamePlayer, Punish};
use crate::order::{
    first_of, lemma_order_is_distinct, pick, picked, stable_order, Ranking,
};
use crate::replay_list::{duration_as_text, duration_text, known_name, player_of_id};
use crate::slippi::{nonblank, set_text};
use crate::text::{integer_text, push_integer, same};

verus! {

broadcast use {vstd::string::group_string_axioms, vstd::std_specs::hash::group_hash_axioms};

/// Who had the advantage in a frame. `P1` is the player at the lower port.
#[derive(Debug, Clone, Copy, PartialEq, Eq, Structural)]
pub enum CombatState {
    Neutral,
    AdvP1,
    AdvP2,
    Trade,
}

/// A game of two, frame by frame.
#[derive(Debug, Clone)]
pub struct ReplayAnalysis {
    pub combat: Vec<CombatState>,
    pub p1_port_idx: usize,
    pub p2_port_idx: usize,
}

/// A player of the game on view.
#[derive(Debug, Clone)]
pub struct ViewerPlayer {
    /// The place, from 0.
    pub placement: usize,
    pub code: String,
    pub character_id: i32,
    /// The port, from 0.
    pub port: i32,
}

impl ViewerPlayer {
    /// The name of the character.
    pub fn character_name(&self) -> (r: &'static str)
        ensures
            r@ == known_name(character_text(self.character_id as int)),
    {
        match character_name(self.character_id) {
            Some(s) => s,
            None => "Unknown",
        }
    }

    /// The port as it is written on the console.
    pub fn port_label(&self) -> (r: String)
        requires
            self.port < i32::MAX,
        ensures
            r@ == "P"@ + integer_text(self.port + 1),
    {
        let mut out = "P".to_owned();
        push_integer(&mut out, self.port as i64 + 1);
        out
    }
}

/// Which of the two players the user is.
#[derive(Debug, Clone, Copy, PartialEq, Eq, Structural)]
pub enum UserPerspective {
    P1,
    P2,
}

/// What a marker on the timeline stands for.
#[derive(Debug, Clone, Copy, PartialEq, Eq, Structural)]
pub enum KeyMomentKind {
    /// A stock was taken.
    Kill,
    /// Many hits that took no stock.
    LongCombo,
}

/// How many hits make a long combo.
pub const LONG_COMBO_THRESHOLD: i32 = 4;

/// A marker on the timeline.
#[derive(Debug, Clone)]
pub struct KeyMoment {
    pub frame: i32,
    pub kind: KeyMomentKind,
    /// Whether the player at the lower port landed the hits.
    pub by_p1: bool,
    pub label: String,
}

/// A marker, as characters.
pub struct MomentView {
    pub frame: i32,
    pub kind: KeyMomentKind,
    pub by_p1: bool,
    pub label: Seq<char>,
}

impl View for KeyMoment {
    type V = MomentView;

    open spec fn view(&self) -> MomentView {
        MomentView { frame: self.frame, kind: self.kind, by_p1: self.by_p1, label: self.label@ }
    }
}

pub open spec fn moments(v: Seq<KeyMoment>) -> Seq<MomentView> {
    v.map_values(|m: KeyMoment| m@)
}

/// What a punish shows: a kill, or a long combo.
pub open spec fn kind_of(p: Punish) -> Option<KeyMomentKind> {
    if p.kills() {
        Some(KeyMomentKind::Kill)
    } else if p.hit_count >= LONG_COMBO_THRESHOLD {
        Some(KeyMomentKind::LongCombo)
    } else {
        None
    }
}

pub open spec fn moment_label(
    p: Punish,
    kind: KeyMomentKind,
    names: Seq<AttackName>,
) -> Seq<char> {
    match kind {
        KeyMomentKind::Kill => match p.kill_move {
            Some(id) => "Kill: "@ + attack_text(names, id) + " ("@ + integer_text(p.hit_count as int)
                + " hits)"@,
            None => "Kill ("@ + integer_text(p.hit_count as int) + " hits)"@,
        },
        KeyMomentKind::LongCombo => integer_text(p.hit_count as int) + "-hit combo"@,
    }
}

/// The marker of a punish: a kill stands where it ended, a combo where it
/// began. A punish by someone who is not in the game has none.
pub open spec fn moment_of(
    p: Punish,
    ports: Map<i32, i32>,
    p1_port: i32,
    names: Seq<AttackName>,
) -> Option<MomentView> {
    match kind_of(p) {
        Some(kind) => if ports.contains_key(p.attacker_id) {
            Some(
                MomentView {
                    frame: match kind {
                        KeyMomentKind::Kill => p.end_frame,
                        KeyMomentKind::LongCombo => p.start_frame,
                    },
                    kind,
                    by_p1: ports[p.attacker_id] == p1_port,
                    label: moment_label(p, kind, names),
                },
            )
        } else {
            None
        },
        None => None,
    }
}

/// The markers of some punishes, in their order.
pub open spec fn moments_of(
    punishes: Seq<Punish>,
    ports: Map<i32, i32>,
    p1_port: i32,
    names: Seq<AttackName>,
) -> Seq<MomentView>
    decreases punishes.len(),
{
    if punishes.len() == 0 {
        seq![]
    } else {
        let before = moments_of(punishes.drop_last(), ports, p1_port, names);
        match moment_of(punishes.last(), ports, p1_port, names) {
            Some(m) => before.push(m),
            None => before,
        }
    }
}

fn label_of(p: &Punish, kind: KeyMomentKind, names: &Vec<AttackName>) -> (r: String)
    ensures
        r@ == moment_label(*p, kind, names@),
{
    match kind {
        KeyMomentKind::Kill => match p.kill_move {
            Some(id) => {
                let mut out = "Kill: ".to_owned();
                out.append(attack_display_name(names, id).as_str());
                out.append(" (");
                push_integer(&mut out, p.hit_count as i64);
                out.append(" hits)");
                out
            },
            None => {
                let mut out = "Kill (".to_owned();
                push_integer(&mut out, p.hit_count as i64);
                out.append(" hits)");
                out
            },
        },
        KeyMomentKind::LongCombo => {
            let mut out = String::new();
            push_integer(&mut out, p.hit_count as i64);
            out.append("-hit combo");
            assert(out@ =~= integer_text(p.hit_count as int) + "-hit combo"@);
            out
        },
    }
}

/// The markers of some punishes, in their order.
pub fn key_moments_from_punishes(
    punishes: &[Punish],
    gp_id_to_port: &HashMap<i32, i32>,
    analysis: &ReplayAnalysis,
    names: &Vec<AttackName>,
) -> (r: Vec<KeyMoment>)
    ensures
        moments(r@) == moments_of(
            punishes@,
            gp_id_to_port@,
            analysis.p1_port_idx as i32,
            names@,
        ),
{
    let p1_port: i32 = #[verifier::truncate]
    (analysis.p1_port_idx as i32);
    let mut out: Vec<KeyMoment> = Vec::new();
    let mut i: usize = 0;
    assert(moments(out@) =~= seq![]);
    assert(punishes@.take(0) =~= seq![]);
    while i < punishes.len()
        invariant
            i <= punishes.len(),
            p1_port == analysis.p1_port_idx as i32,
            moments(out@) == moments_of(
                punishes@.take(i as int),
                gp_id_to_port@,
                p1_port,
                names@,
            ),
        decreases punishes.len() - i,
    {
        let p = &punishes[i];
        assert(punishes@.take(i + 1).drop_last() =~= punishes@.take(i as int));
        let kind: Option<KeyMomentKind> = if p.did_kill_bool() {
            Some(KeyMomentKind::Kill)
        } else if p.hit_count >= LONG_COMBO_THRESHOLD {
            Some(KeyMomentKind::LongCombo)
        } else {
            None
        };
        match kind {
            Some(kind) => match gp_id_to_port.get(&p.attacker_id) {
                Some(port) => {
                    let frame: i32 = match kind {
                        KeyMomentKind::Kill => p.end_frame,
                        KeyMomentKind::LongCombo => p.start_frame,
                    };
                    let m = KeyMoment {
                        frame,
                        kind,
                        by_p1: *port == p1_port,
                        label: label_of(p, kind, names),
                    };
                    let ghost before = out@;
                    out.push(m);
                    assert(moments(out@) =~= moments(before).push(m@));
                },
                None => {},
            },
            None => {},
        }
        i += 1;
    }
    assert(punishes@.take(i as int) =~= punishes@);
    out
}

/// Markers under the order of their frames.
pub struct FrameOrder<'a> {
    pub moments: &'a Vec<KeyMoment>,
}

impl<'a> Ranking for FrameOrder<'a> {
    open spec fn count(&self) -> nat {
        self.moments@.len()
    }

    open spec fn lt(&self, i: int, j: int) -> bool {
        self.moments@[i].frame < self.moments@[j].frame
    }

    proof fn lt_is_weak_order(&self) {
    }

    fn before(&self, i: usize, j: usize) -> (r: bool) {
        self.moments[i].frame < self.moments[j].frame
    }
}

/// Whether `order` lists the places of some markers, each once: by frame, and
/// of two at one frame the one that stands first.
pub open spec fn is_frame_order(v: Seq<MomentView>, order: Seq<usize>) -> bool {
    &&& order.len() == v.len()
    &&& forall|a: int| 0 <= a < order.len() ==> #[trigger] order[a] < v.len()
    &&& forall|a: int, b: int|
        0 <= a < b < order.len() ==> {
            let (x, y) = (#[trigger] order[a] as int, #[trigger] order[b] as int);
            v[x].frame < v[y].frame || (v[x].frame == v[y].frame && x < y)
        }
    &&& forall|i: int| 0 <= i < v.len() ==> order.contains(#[trigger] (i as usize))
}

/// Whether `new` is `v` sorted by frame, markers of one frame in their order.
pub open spec fn is_timeline(new: Seq<MomentView>, v: Seq<MomentView>) -> bool {
    exists|order: Seq<usize>| #[trigger] is_frame_order(v, order) && new == picked(v, order)
}

/// Markers in the order of their frames.
pub fn sort_moments(v: Vec<KeyMoment>) -> (r: Vec<KeyMoment>)
    ensures
        is_timeline(moments(r@), moments(v@)),
{
    let ghost all = moments(v@);
    let n: usize = v.len();
    let order = {
        let ranking = FrameOrder { moments: &v };
        let order = stable_order(&ranking, n);
        proof {
            lemma_order_is_distinct(ranking, order@, n as int);
            assert forall|a: int, b: int| 0 <= a < b < order@.len() implies {
                let (x, y) = (#[trigger] order@[a] as int, #[trigger] order@[b] as int);
                all[x].frame < all[y].frame || (all[x].frame == all[y].frame && x < y)
            } by {
                assert(first_of(ranking, order@[a] as int, order@[b] as int));
            }
        }
        order
    };
    let r = pick(v, &order);
    assert(is_frame_order(all, order@));
    assert(moments(r@) =~= picked(all, order@));
    r
}

/// The markers of a timeline never run backwards.
pub proof fn timelines_run_forward(new: Seq<MomentView>, v: Seq<MomentView>)
    requires
        is_timeline(new, v),
    ensures
        new.len() == v.len(),
        forall|i: int, j: int|
            0 <= i < j < new.len() ==> (#[trigger] new[i]).frame <= (#[trigger] new[j]).frame,
{
    let order = choose|order: Seq<usize>|
        #[trigger] is_frame_order(v, order) && new == picked(v, order);
    assert forall|i: int, j: int| 0 <= i < j < new.len() implies (#[trigger] new[i]).frame <= (
    #[trigger] new[j]).frame by {
        let (x, y) = (order[i] as int, order[j] as int);
        assert(v[x].frame < v[y].frame || (v[x].frame == v[y].frame && x < y));
    }
}

/// Every kill by someone in the game has a marker, however many hits it took.
pub proof fn kills_are_always_marked(
    p: Punish,
    ports: Map<i32, i32>,
    p1_port: i32,
    names: Seq<AttackName>,
)
    requires
        p.kills(),
        ports.contains_key(p.attacker_id),
    ensures
        moment_of(p, ports, p1_port, names) matches Some(m) && m.kind == KeyMomentKind::Kill
            && m.frame == p.end_frame,
{
}

// ----------------------------------------------------------------- perspective

/// The port of the first player with a code.
pub open spec fn port_of(players: Seq<ViewerPlayer>, code: Seq<char>) -> Option<i32>
    decreases players.len(),
{
    if players.len() == 0 {
        None
    } else if players[0].code@ == code {
        Some(players[0].port)
    } else {
        port_of(players.drop_first(), code)
    }
}

/// Which of the two players the user is, where they are one of them.
pub open spec fn perspective_of(
    user: Option<Seq<char>>,
    players: Seq<ViewerPlayer>,
    analysis: Option<ReplayAnalysis>,
) -> Option<UserPerspective> {
    match (user, analysis) {
        (Some(code), Some(a)) => match port_of(players, code) {
            Some(port) => if port == a.p1_port_idx as i32 {
                Some(UserPerspective::P1)
            } else if port == a.p2_port_idx as i32 {
                Some(UserPerspective::P2)
            } else {
                None
            },
            None => None,
        },
        _ => None,
    }
}

pub open spec fn opt_analysis(o: Option<&ReplayAnalysis>) -> Option<ReplayAnalysis> {
    match o {
        Some(a) => Some(*a),
        None => None,
    }
}

/// Which of the two players the user is, where they are one of them.
pub fn compute_user_perspective(
    user_code: Option<&str>,
    players: &[ViewerPlayer],
    analysis: Option<&ReplayAnalysis>,
) -> (r: Option<UserPerspective>)
    ensures
        r == perspective_of(set_text(user_code), players@, opt_analysis(analysis)),
{
    let code = match nonblank(user_code) {
        Some(code) => code,
        None => {
            return None;
        },
    };
    let a = match analysis {
        Some(a) => a,
        None => {
            return None;
        },
    };
    let port: i32 = match find_port(players, code) {
        Some(port) => port,
        None => {
            return None;
        },
    };
    let p1: i32 = #[verifier::truncate]
    (a.p1_port_idx as i32);
    let p2: i32 = #[verifier::truncate]
    (a.p2_port_idx as i32);
    if port == p1 {
        Some(UserPerspective::P1)
    } else if port == p2 {
        Some(UserPerspective::P2)
    } else {
        None
    }
}

fn find_port(players: &[ViewerPlayer], code: &str) -> (r: Option<i32>)
    ensures
        r == port_of(players@, code@),
{
    let mut i: usize = 0;
    assert(players@.skip(0) =~= players@);
    while i < players.len()
        invariant
            i <= players.len(),
            port_of(players@, code@) == port_of(players@.skip(i as int), code@),
        decreases players.len() - i,
    {
        if same(players[i].code.as_str(), code) {
            return Some(players[i].port);
        }
        assert(players@.skip(i as int).drop_first() =~= players@.skip(i + 1));
        i += 1;
    }
    None
}

// -------------------------------------------------------------------- the bar

/// A color of the timeline.
#[derive(Debug, Clone, Copy, PartialEq, Eq, Structural)]
pub enum BarColor {
    Neutral,
    Green,
    Red,
    Trade,
}

impl BarColor {
    pub open spec fn parts(self) -> (u8, u8, u8) {
        match self {
            BarColor::Neutral => (70, 80, 95),
            BarColor::Green => (60, 170, 90),
            BarColor::Red => (220, 80, 80),
            BarColor::Trade => (230, 170, 40),
        }
    }

    /// Red, green and blue.
    pub fn rgb(self) -> (r: (u8, u8, u8))
        ensures
            r == self.parts(),
    {
        match self {
            BarColor::Neutral => (70, 80, 95),
            BarColor::Green => (60, 170, 90),
            BarColor::Red => (220, 80, 80),
            BarColor::Trade => (230, 170, 40),
        }
    }
}

/// The colors of an advantage of the lower and of the higher port.
pub open spec fn palette_of(perspective: Option<UserPerspective>) -> (BarColor, BarColor) {
    match perspective {
        Some(UserPerspective::P2) => (BarColor::Red, BarColor::Green),
        _ => (BarColor::Green, BarColor::Red),
    }
}

/// The colors of an advantage of the lower and of the higher port: the user's
/// is green; without a user, the lower port's.
pub fn user_palette(perspective: Option<UserPerspective>) -> (r: (BarColor, BarColor))
    ensures
        r == palette_of(perspective),
{
    match perspective {
        None | Some(UserPerspective::P1) => (BarColor::Green, BarColor::Red),
        Some(UserPerspective::P2) => (BarColor::Red, BarColor::Green),
    }
}

/// The color of a marker: that of an advantage of the player who landed the
/// hits.
pub open spec fn marker_color(by_p1: bool, perspective: Option<UserPerspective>) -> BarColor {
    if by_p1 {
        palette_of(perspective).0
    } else {
        palette_of(perspective).1
    }
}

impl KeyMoment {
    /// The color of a marker.
    pub fn color(&self, perspective: Option<UserPerspective>) -> (r: BarColor)
        ensures
            r == marker_color(self.by_p1, perspective),
    {
        let (p1, p2) = user_palette(perspective);
        if self.by_p1 {
            p1
        } else {
            p2
        }
    }
}

/// An advantage of the user is green and one of the opponent red, whichever
/// port the user has.
pub proof fn user_advantage_is_green(perspective: UserPerspective)
    ensures
        ({
            let (p1, p2) = palette_of(Some(perspective));
            let (mine, theirs) = match perspective {
                UserPerspective::P1 => (p1, p2),
                UserPerspective::P2 => (p2, p1),
            };
            mine == BarColor::Green && theirs == BarColor::Red
        }),
{
}

/// The color of some frames: a trade, or advantages on both sides, show as a
/// trade; then an advantage; then nothing.
pub open spec fn color_of(slice: Seq<CombatState>, palette: (BarColor, BarColor)) -> BarColor {
    if slice.contains(CombatState::Trade) || (slice.contains(CombatState::AdvP1) && slice.contains(
        CombatState::AdvP2,
    )) {
        BarColor::Trade
    } else if slice.contains(CombatState::AdvP1) {
        palette.0
    } else if slice.contains(CombatState::AdvP2) {
        palette.1
    } else {
        BarColor::Neutral
    }
}

/// The color of some frames.
pub fn bucket_color(slice: &[CombatState], palette: (BarColor, BarColor)) -> (r: BarColor)
    ensures
        r == color_of(slice@, palette),
{
    let mut has_trade: bool = false;
    let mut has_p1: bool = false;
    let mut has_p2: bool = false;
    let mut i: usize = 0;
    while i < slice.len()
        invariant
            i <= slice.len(),
            has_trade == exists|k: int| 0 <= k < i && slice@[k] == CombatState::Trade,
            has_p1 == exists|k: int| 0 <= k < i && slice@[k] == CombatState::AdvP1,
            has_p2 == exists|k: int| 0 <= k < i && slice@[k] == CombatState::AdvP2,
        decreases slice.len() - i,
    {
        match slice[i] {
            CombatState::Trade => {
                has_trade = true;
            },
            CombatState::AdvP1 => {
                has_p1 = true;
            },
            CombatState::AdvP2 => {
                has_p2 = true;
            },
            CombatState::Neutral => {},
        }
        i += 1;
    }
    assert(has_trade == slice@.contains(CombatState::Trade));
    assert(has_p1 == slice@.contains(CombatState::AdvP1));
    assert(has_p2 == slice@.contains(CombatState::AdvP2));
    if has_trade || (has_p1 && has_p2) {
        BarColor::Trade
    } else if has_p1 {
        palette.0
    } else if has_p2 {
        palette.1
    } else {
        BarColor::Neutral
    }
}

/// The first frame of a pixel.
pub open spec fn frame_from(n: int, pixels: int, px: int) -> int {
    px * n / pixels
}

/// The end of the frames of a pixel: each pixel shows at least one.
pub open spec fn frame_to(n: int, pixels: int, px: int) -> int {
    let end = (px + 1) * n / pixels;
    if end <= frame_from(n, pixels, px) {
        frame_from(n, pixels, px) + 1
    } else {
        end
    }
}

/// The color of a pixel of the bar.
pub open spec fn pixel_color(
    states: Seq<CombatState>,
    pixels: int,
    px: int,
    palette: (BarColor, BarColor),
) -> BarColor {
    let n = states.len() as int;
    color_of(states.subrange(frame_from(n, pixels, px), frame_to(n, pixels, px)), palette)
}

/// Neighboring pixels of one color.
#[derive(Debug, Clone, Copy, PartialEq, Eq, Structural)]
pub struct ScrubRun {
    pub start: usize,
    pub end: usize,
    pub color: BarColor,
}

/// Whether runs cover the pixels `0..px`, each run in one color, each as long
/// as its color lasts.
pub open spec fn covers(
    runs: Seq<ScrubRun>,
    states: Seq<CombatState>,
    pixels: int,
    px: int,
    palette: (BarColor, BarColor),
) -> bool {
    &&& runs.len() == 0 <==> px == 0
    &&& runs.len() > 0 ==> runs[0].start == 0 && runs.last().end == px
    &&& forall|i: int| 0 <= i < runs.len() ==> (#[trigger] runs[i]).start < runs[i].end
    &&& forall|i: int, j: int|
        0 <= i && j == i + 1 && j < runs.len() ==> (#[trigger] runs[i]).end == (
        #[trigger] runs[j]).start && runs[i].color != runs[j].color
    &&& forall|i: int, p: int|
        0 <= i < runs.len() && (#[trigger] runs[i]).start <= p < runs[i].end ==> runs[i].color
            == #[trigger] pixel_color(states, pixels, p, palette)
}

proof fn lemma_frames_of_pixel(n: int, pixels: int, px: int)
    requires
        0 < n,
        0 <= px < pixels,
    ensures
        0 <= frame_from(n, pixels, px) < frame_to(n, pixels, px) <= n,
        0 <= px * n <= (px + 1) * n <= pixels * n,
{
    assert(0 <= px * n) by (nonlinear_arith)
        requires
            0 <= px,
            0 < n,
    ;
    assert((px + 1) * n == px * n + n) by (nonlinear_arith);
    assert((px + 1) * n <= pixels * n) by (nonlinear_arith)
        requires
            px + 1 <= pixels,
            0 < n,
    ;
    assert(px * n < n * pixels) by (nonlinear_arith)
        requires
            px < pixels,
            0 < n,
    ;
    let a = px * n / pixels;
    let b = (px + 1) * n / pixels;
    vstd::arithmetic::div_mod::lemma_div_pos_is_pos(px * n, pixels);
    vstd::arithmetic::div_mod::lemma_div_is_ordered((px + 1) * n, n * pixels, pixels);
    assert(pixels * n == n * pixels) by (nonlinear_arith);
    vstd::arithmetic::div_mod::lemma_div_multiples_vanish(n, pixels);
    vstd::arithmetic::div_mod::lemma_multiply_divide_lt(px * n, pixels, n);
}

/// Every frame of a game is shown by some pixel of its bar.
proof fn lemma_pixel_of_frame(n: int, pixels: int, f: int) -> (px: int)
    requires
        0 <= f < n,
        0 < pixels,
    ensures
        0 <= px < pixels,
        frame_from(n, pixels, px) <= f < frame_to(n, pixels, px),
{
    let a = (f + 1) * pixels - 1;
    let px = a / n;
    assert(0 <= a < pixels * n) by (nonlinear_arith)
        requires
            a == (f + 1) * pixels - 1,
            0 <= f,
            f + 1 <= n,
            0 < pixels,
    ;
    assert(pixels * n == n * pixels) by (nonlinear_arith);
    assert(pixels * (f + 1) == (f + 1) * pixels) by (nonlinear_arith);
    vstd::arithmetic::div_mod::lemma_fundamental_div_mod(a, n);
    vstd::arithmetic::div_mod::lemma_div_pos_is_pos(a, n);
    vstd::arithmetic::div_mod::lemma_multiply_divide_lt(a, n, pixels);
    assert(px * n <= a < (px + 1) * n) by (nonlinear_arith)
        requires
            a == n * px + a % n,
            0 <= a % n < n,
    ;
    vstd::arithmetic::div_mod::lemma_multiply_divide_lt(px * n, pixels, f + 1);
    vstd::arithmetic::div_mod::lemma_div_is_ordered((f + 1) * pixels, (px + 1) * n, pixels);
    vstd::arithmetic::div_mod::lemma_div_multiples_vanish(f + 1, pixels);
    px
}

/// However short it is, a fight shows: some pixel that stands for a frame of it
/// is colored.
pub proof fn no_fight_is_hidden(
    states: Seq<CombatState>,
    pixels: int,
    perspective: Option<UserPerspective>,
    f: int,
)
    requires
        0 <= f < states.len(),
        0 < pixels,
        states[f] != CombatState::Neutral,
    ensures
        exists|px: int|
            0 <= px < pixels && frame_from(states.len() as int, pixels, px) <= f < frame_to(
                states.len() as int,
                pixels,
                px,
            ) && #[trigger] pixel_color(states, pixels, px, palette_of(perspective))
                != BarColor::Neutral,
{
    let n = states.len() as int;
    let px = lemma_pixel_of_frame(n, pixels, f);
    lemma_frames_of_pixel(n, pixels, px);
    let slice = states.subrange(frame_from(n, pixels, px), frame_to(n, pixels, px));
    assert(slice[f - frame_from(n, pixels, px)] == states[f]);
    assert(slice.contains(states[f]));
    assert(pixel_color(states, pixels, px, palette_of(perspective)) != BarColor::Neutral);
}

/// The color of a pixel of the bar.
fn color_at(states: &[CombatState], pixels: usize, px: usize, palette: (BarColor, BarColor)) -> (r:
    BarColor)
    requires
        0 < states.len(),
        px < pixels,
        pixels * states.len() <= usize::MAX,
    ensures
        r == pixel_color(states@, pixels as int, px as int, palette),
{
    let n: usize = states.len();
    proof {
        lemma_frames_of_pixel(n as int, pixels as int, px as int);
    }
    let start: usize = px * n / pixels;
    let mut end: usize = (px + 1) * n / pixels;
    if end <= start {
        end = start + 1;
    }
    bucket_color(vstd::slice::slice_subrange(states, start, end), palette)
}

/// The runs of a bar of some pixels over the frames of a game, from the left.
pub fn scrub_runs(states: &[CombatState], pixels: usize, palette: (BarColor, BarColor)) -> (runs: Vec<
    ScrubRun,
>)
    requires
        pixels * states.len() <= usize::MAX,
    ensures
        states.len() == 0 ==> runs@.len() == 0,
        states.len() > 0 ==> covers(runs@, states@, pixels as int, pixels as int, palette),
{
    let mut runs: Vec<ScrubRun> = Vec::new();
    if states.len() == 0 {
        return runs;
    }
    let mut px: usize = 0;
    while px < pixels
        invariant
            0 < states.len(),
            px <= pixels,
            pixels * states.len() <= usize::MAX,
            covers(runs@, states@, pixels as int, px as int, palette),
        decreases pixels - px,
    {
        let color: BarColor = color_at(states, pixels, px, palette);
        let len: usize = runs.len();
        if len > 0 && runs[len - 1].color == color {
            let last: ScrubRun = runs[len - 1];
            runs[len - 1] = ScrubRun { start: last.start, end: px + 1, color };
        } else {
            runs.push(ScrubRun { start: px, end: px + 1, color });
        }
        px += 1;
    }
    runs
}

/// The words under the heading of the bar.
pub fn intro_blurb(perspective: Option<UserPerspective>) -> (r: &'static str)
    ensures
        r@ == (match perspective {
            Some(_) =>
                "Colored per-frame: green = you have advantage, red = you're on disadvantage, amber = trade, slate = neutral."@,
            None =>
                "Colored per-frame: green = lower-port player has advantage, red = higher-port player, amber = trade, slate = neutral. Set your player code in Settings to flip the palette to your perspective."@,
        }),
{
    match perspective {
        Some(_) =>
            "Colored per-frame: green = you have advantage, red = you're on disadvantage, amber = trade, slate = neutral.",
        None =>
            "Colored per-frame: green = lower-port player has advantage, red = higher-port player, amber = trade, slate = neutral. Set your player code in Settings to flip the palette to your perspective.",
    }
}

/// The words of the legend for an advantage of the lower and of the higher
/// port.
pub open spec fn legend_words(perspective: Option<UserPerspective>) -> (Seq<char>, Seq<char>) {
    match perspective {
        Some(UserPerspective::P1) => ("You"@, "Opponent"@),
        Some(UserPerspective::P2) => ("Opponent"@, "You"@),
        None => ("P1 advantage"@, "P2 advantage"@),
    }
}

/// The words of the legend for an advantage of the lower and of the higher
/// port.
pub fn legend_labels(perspective: Option<UserPerspective>) -> (r: (&'static str, &'static str))
    ensures
        (r.0@, r.1@) == legend_words(perspective),
{
    match perspective {
        Some(UserPerspective::P1) => ("You", "Opponent"),
        Some(UserPerspective::P2) => ("Opponent", "You"),
        None => ("P1 advantage", "P2 advantage"),
    }
}

/// A placement in words.
pub fn ordinal(placement: usize) -> (r: &'static str)
    ensures
        r@ == (if placement == 0 {
            "1st"@
        } else if placement == 1 {
            "2nd"@
        } else if placement == 2 {
            "3rd"@
        } else if placement == 3 {
            "4th"@
        } else {
            "?"@
        }),
{
    match placement {
        0 => "1st",
        1 => "2nd",
        2 => "3rd",
        3 => "4th",
        _ => "?",
    }
}

// -------------------------------------------------------------------- the page

/// A game on view.
#[derive(Debug)]
pub struct ViewerState {
    pub game_id: i32,
    pub replay_path: Option<String>,
    pub stage_id: i32,
    pub duration_seconds: i32,
    pub ingested_at: String,
    /// By placement.
    pub players: Vec<ViewerPlayer>,
    /// The frames of the game, or why there are none.
    pub analysis: Result<ReplayAnalysis, String>,
    pub user_perspective: Option<UserPerspective>,
    /// By frame.
    pub key_moments: Vec<KeyMoment>,
}

impl ViewerState {
    /// The name of the stage.
    pub fn stage_name(&self) -> (r: &'static str)
        ensures
            r@ == known_name(stage_text(self.stage_id as int)),
    {
        match stage_name(self.stage_id) {
            Some(s) => s,
            None => "Unknown",
        }
    }

    /// The duration as `M:SS`.
    pub fn duration_display(&self) -> (r: String)
        ensures
            r@ == duration_text(self.duration_seconds as int),
    {
        duration_as_text(self.duration_seconds)
    }
}

/// A player on view: placement, code, character and port.
pub open spec fn viewer_player(p: ViewerPlayer) -> (int, Seq<char>, i32, i32) {
    (p.placement as int, p.code@, p.character_id, p.port)
}

pub open spec fn viewer_players(v: Seq<ViewerPlayer>) -> Seq<(int, Seq<char>, i32, i32)> {
    v.map_values(|p: ViewerPlayer| viewer_player(p))
}

/// The players in the first `n` slots.
pub open spec fn players_in(players: Seq<GamePlayer>, ids: Seq<Option<i32>>, n: int) -> Seq<
    (int, Seq<char>, i32, i32),
>
    decreases n,
{
    if n <= 0 {
        seq![]
    } else {
        let before = players_in(players, ids, n - 1);
        match ids[n - 1] {
            Some(id) => match player_of_id(players, id) {
                Some(p) => before.push((n - 1, p.code@, p.character, p.port)),
                None => before,
            },
            None => before,
        }
    }
}

/// The ports of the players in the first `n` slots, by id.
pub open spec fn ports_in(players: Seq<GamePlayer>, ids: Seq<Option<i32>>, n: int) -> Map<i32, i32>
    decreases n,
{
    if n <= 0 {
        Map::empty()
    } else {
        let before = ports_in(players, ids, n - 1);
        match ids[n - 1] {
            Some(id) => match player_of_id(players, id) {
                Some(p) => before.insert(id, p.port),
                None => before,
            },
            None => before,
        }
    }
}

/// Whether `v` is the page of a game.
pub open spec fn is_page(
    v: ViewerState,
    g: Game,
    players: Seq<GamePlayer>,
    parsed: Result<ReplayAnalysis, String>,
    punishes: Seq<Punish>,
    names: Seq<AttackName>,
    user: Option<Seq<char>>,
) -> bool {
    &&& v.game_id == g.id
    &&& v.replay_path == g.replay_path
    &&& v.stage_id == g.stage
    &&& v.duration_seconds == g.time
    &&& v.ingested_at == g.ingested_at
    &&& viewer_players(v.players@) == players_in(players, slot_ids(g), 4)
    &&& if g.replay_path is None {
        v.analysis matches Err(s) && s@
            == "this game was ingested before replay-path tracking — re-ingest to enable the scrub bar"@
    } else {
        v.analysis == parsed
    }
    &&& v.user_perspective == perspective_of(
        user,
        v.players@,
        match v.analysis {
            Ok(a) => Some(a),
            Err(_) => None,
        },
    )
    &&& match v.analysis {
        Ok(a) => is_timeline(
            moments(v.key_moments@),
            moments_of(
                punishes,
                ports_in(players, slot_ids(g), 4),
                a.p1_port_idx as i32,
                names,
            ),
        ),
        Err(_) => v.key_moments@.len() == 0,
    }
}

/// The page of a game. `players` holds the players that the game names,
/// `parsed` what was read from the replay, where the game has a path, and
/// `punishes` the game's punishes.
pub fn load_viewer(
    g: Game,
    players: &Vec<GamePlayer>,
    parsed: Result<ReplayAnalysis, String>,
    punishes: &Vec<Punish>,
    names: &Vec<AttackName>,
    user_player_code: Option<&str>,
) -> (r: Result<ViewerState, UnknownPlayer>)
    ensures
        match r {
            Ok(v) => missing_id(players@, slot_ids(g)) is None && is_page(
                v,
                g,
                players@,
                parsed,
                punishes@,
                names@,
                set_text(user_player_code),
            ),
            Err(e) => missing_id(players@, slot_ids(g)) == Some(e.id),
        },
{
    let ghost ids_seq = slot_ids(g);
    let ids: [Option<i32>; 4] = [g.first, g.second, g.third, g.fourth];
    let mut shown: Vec<ViewerPlayer> = Vec::new();
    let mut ports: HashMap<i32, i32> = HashMap::new();
    let mut k: usize = 0;
    assert(viewer_players(shown@) =~= seq![]);
    assert(ids_seq.skip(0) =~= ids_seq);
    while k < 4
        invariant
            k <= 4,
            ids@ == ids_seq,
            ids_seq == slot_ids(g),
            missing_id(players@, ids_seq) == missing_id(players@, ids_seq.skip(k as int)),
            viewer_players(shown@) == players_in(players@, ids_seq, k as int),
            ports@ == ports_in(players@, ids_seq, k as int),
        decreases 4 - k,
    {
        assert(ids_seq.skip(k as int)[0] == ids_seq[k as int]);
        assert(ids_seq.skip(k as int).drop_first() =~= ids_seq.skip(k + 1));
        match ids[k] {
            Some(id) => match find_player(players, id) {
                Some(p) => {
                    let ghost before = shown@;
                    ports.insert(id, p.port);
                    shown.push(
                        ViewerPlayer {
                            placement: k,
                            code: p.code.clone(),
                            character_id: p.character,
                            port: p.port,
                        },
                    );
                    assert(viewer_players(shown@) =~= viewer_players(before).push(
                        (k as int, p.code@, p.character, p.port),
                    ));
                },
                None => {
                    return Err(UnknownPlayer { id });
                },
            },
            None => {},
        }
        k += 1;
    }
    assert(ids_seq.skip(4) =~= seq![]);
    let analysis: Result<ReplayAnalysis, String> = match &g.replay_path {
        None => Err(
            "this game was ingested before replay-path tracking — re-ingest to enable the scrub bar".to_owned(),
        ),
        Some(_) => parsed,
    };
    let (user_perspective, key_moments): (Option<UserPerspective>, Vec<KeyMoment>) = match &analysis {
        Ok(a) => (
            compute_user_perspective(user_player_code, shown.as_slice(), Some(a)),
            sort_moments(key_moments_from_punishes(punishes.as_slice(), &ports, a, names)),
        ),
        Err(_) => (
            compute_user_perspective(user_player_code, shown.as_slice(), None),
            Vec::new(),
        ),
    };
    Ok(
        ViewerState {
            game_id: g.id,
            replay_path: g.replay_path,
            stage_id: g.stage,
            duration_seconds: g.time,
            ingested_at: g.ingested_at,
            players: shown,
            analysis,
            user_perspective,
            key_moments,
        },
    )
}

/// How the frames of a replay are had.
#[derive(Debug)]
pub enum AnalysisPlan {
    /// They are not: the file is gone. What the user is told.
    Missing(String),
    /// Read from the file.
    Parse,
    /// Taken from the cache under the replay's hash; read from the file, and
    /// kept, where the cache has none.
    Cached,
}

/// How the frames of a replay are had: a file that is gone gives none, and a
/// replay without a hash cannot be cached.
pub fn derive_analysis(replay_path: &str, present: bool, content_hash: Option<&str>) -> (r: AnalysisPlan)
    ensures
        match r {
            AnalysisPlan::Missing(s) => !present && s@ == "replay file not found on disk: "@
                + replay_path@ + "\n(was the folder moved or renamed?)"@,
            AnalysisPlan::Parse => present && content_hash is None,
            AnalysisPlan::Cached => present && content_hash is Some,
        },
{
    if !present {
        let mut out = "replay file not found on disk: ".to_owned();
        out.append(replay_path);
        out.append("\n(was the folder moved or renamed?)");
        return AnalysisPlan::Missing(out);
    }
    match content_hash {
        None => AnalysisPlan::Parse,
        Some(_) => AnalysisPlan::Cached,
    }
}

// ------------------------------------------------------------- laws of the bar

/// A trade among the frames of a pixel shows as a trade, whatever else happened
/// in them and whatever the palette.
pub proof fn trades_show_as_trades(slice: Seq<CombatState>, palette: (BarColor, BarColor), i: int)
    requires
        0 <= i < slice.len(),
        slice[i] == CombatState::Trade,
    ensures
        color_of(slice, palette) == BarColor::Trade,
{
    assert(slice.contains(slice[i]));
}

/// Advantages of both players among the frames of a pixel show as a trade.
pub proof fn turns_of_both_show_as_a_trade(
    slice: Seq<CombatState>,
    palette: (BarColor, BarColor),
    i: int,
    j: int,
)
    requires
        0 <= i < slice.len(),
        0 <= j < slice.len(),
        slice[i] == CombatState::AdvP1,
        slice[j] == CombatState::AdvP2,
    ensures
        color_of(slice, palette) == BarColor::Trade,
{
    assert(slice.contains(slice[i]) && slice.contains(slice[j]));
}

/// A pixel has the color of a player where they had the advantage in one of its
/// frames, and in no frame the other had it or the two traded.
pub proof fn advantages_show_their_color(
    slice: Seq<CombatState>,
    palette: (BarColor, BarColor),
    i: int,
)
    requires
        0 <= i < slice.len(),
    ensures
        slice[i] == CombatState::AdvP1 && (forall|k: int|
            0 <= k < slice.len() ==> #[trigger] slice[k] != CombatState::AdvP2 && slice[k]
                != CombatState::Trade) ==> color_of(slice, palette) == palette.0,
        slice[i] == CombatState::AdvP2 && (forall|k: int|
            0 <= k < slice.len() ==> #[trigger] slice[k] != CombatState::AdvP1 && slice[k]
                != CombatState::Trade) ==> color_of(slice, palette) == palette.1,
{
    assert(slice.contains(slice[i]));
}

/// Frames in which nobody had the advantage have no color.
pub proof fn quiet_frames_have_no_color(slice: Seq<CombatState>, palette: (BarColor, BarColor))
    requires
        forall|k: int| 0 <= k < slice.len() ==> #[trigger] slice[k] == CombatState::Neutral,
    ensures
        color_of(slice, palette) == BarColor::Neutral,
{
}

/// What a color tells of the frames, for two players of different colors, both
/// other than the colors of a trade and of nothing.
pub proof fn colors_tell_what_happened(slice: Seq<CombatState>, palette: (BarColor, BarColor))
    requires
        palette.0 != palette.1,
        palette.0 != BarColor::Trade && palette.0 != BarColor::Neutral,
        palette.1 != BarColor::Trade && palette.1 != BarColor::Neutral,
    ensures
        color_of(slice, palette) == palette.0 ==> slice.contains(CombatState::AdvP1)
            && !slice.contains(CombatState::AdvP2) && !slice.contains(CombatState::Trade),
        color_of(slice, palette) == palette.1 ==> slice.contains(CombatState::AdvP2)
            && !slice.contains(CombatState::AdvP1) && !slice.contains(CombatState::Trade),
        color_of(slice, palette) == BarColor::Neutral ==> forall|k: int|
            0 <= k < slice.len() ==> #[trigger] slice[k] == CombatState::Neutral,
        color_of(slice, palette) == BarColor::Trade ==> slice.contains(CombatState::Trade) || (
        slice.contains(CombatState::AdvP1) && slice.contains(CombatState::AdvP2)),
{
    assert forall|k: int| 0 <= k < slice.len() && color_of(slice, palette) == BarColor::Neutral implies #[trigger] slice[k]
        == CombatState::Neutral by {
        assert(slice.contains(slice[k]));
    }
}

/// A player as the other one sees them.
pub open spec fn turned(s: CombatState) -> CombatState {
    match s {
        CombatState::AdvP1 => CombatState::AdvP2,
        CombatState::AdvP2 => CombatState::AdvP1,
        other => other,
    }
}

/// With the players exchanged, and their colors with them, the bar looks the
/// same.
pub proof fn ports_do_not_matter(slice: Seq<CombatState>, palette: (BarColor, BarColor))
    ensures
        color_of(slice.map_values(|s: CombatState| turned(s)), (palette.1, palette.0)) == color_of(
            slice,
            palette,
        ),
{
    let other = slice.map_values(|s: CombatState| turned(s));
    assert forall|k: int| 0 <= k < slice.len() implies #[trigger] other[k] == turned(slice[k]) by {}
    assert forall|s: CombatState| slice.contains(s) implies other.contains(#[trigger] turned(s)) by {
        let k = choose|k: int| 0 <= k < slice.len() && slice[k] == s;
        assert(other[k] == turned(s));
    }
    assert forall|s: CombatState| other.contains(#[trigger] turned(s)) implies slice.contains(s) by {
        let k = choose|k: int| 0 <= k < other.len() && other[k] == turned(s);
        assert(slice[k] == s);
    }
    assert(turned(CombatState::AdvP1) == CombatState::AdvP2);
    assert(turned(CombatState::AdvP2) == CombatState::AdvP1);
    assert(turned(CombatState::Trade) == CombatState::Trade);
}

/// The pixels of a bar share out the frames of a game: the first begins with
/// the first frame, the last ends with the last, each shows one frame at least,
/// and each goes on where the one before it ended. Where there are more pixels
/// than frames, each shows just one. Each begins at its share of the frames,
/// rounded down.
pub proof fn pixels_share_out_the_frames(n: int, pixels: int, px: int)
    requires
        0 < n,
        0 <= px < pixels,
    ensures
        0 <= frame_from(n, pixels, px) < frame_to(n, pixels, px) <= n,
        frame_from(n, pixels, 0) == 0,
        frame_to(n, pixels, pixels - 1) == n,
        frame_from(n, pixels, px) * pixels <= px * n < (frame_from(n, pixels, px) + 1) * pixels,
        pixels <= n && px + 1 < pixels ==> frame_to(n, pixels, px) == frame_from(
            n,
            pixels,
            px + 1,
        ),
        n <= pixels ==> frame_to(n, pixels, px) == frame_from(n, pixels, px) + 1,
{
    lemma_frames_of_pixel(n, pixels, px);
    lemma_frames_of_pixel(n, pixels, pixels - 1);
    let a = px * n / pixels;
    let b = (px + 1) * n / pixels;
    vstd::arithmetic::div_mod::lemma_fundamental_div_mod(px * n, pixels);
    vstd::arithmetic::div_mod::lemma_fundamental_div_mod((px + 1) * n, pixels);
    vstd::arithmetic::div_mod::lemma_mod_bound(px * n, pixels);
    vstd::arithmetic::div_mod::lemma_mod_bound((px + 1) * n, pixels);
    let (r, t) = (px * n % pixels, (px + 1) * n % pixels);
    assert((px + 1) * n == px * n + n) by (nonlinear_arith);
    assert(a * pixels == pixels * a) by (nonlinear_arith);
    assert((a + 1) * pixels == pixels * a + pixels) by (nonlinear_arith);
    assert(0 * n == 0);
    assert(0int / pixels == 0) by (nonlinear_arith)
        requires
            0 < pixels,
    ;
    assert(pixels * n / pixels == n) by {
        vstd::arithmetic::div_mod::lemma_div_multiples_vanish(n, pixels);
    }
    if n <= pixels {
        assert(b <= a + 1) by (nonlinear_arith)
            requires
                pixels * b + t == pixels * a + r + n,
                0 <= r < pixels,
                0 <= t < pixels,
                0 < n <= pixels,
        ;
    }
    if pixels <= n {
        assert(b > a) by (nonlinear_arith)
            requires
                pixels * b + t == pixels * a + r + n,
                0 <= r < pixels,
                0 <= t < pixels,
                pixels <= n,
        ;
    }
}

proof fn lemma_run_of_pixel(
    runs: Seq<ScrubRun>,
    states: Seq<CombatState>,
    pixels: int,
    px: int,
    palette: (BarColor, BarColor),
    p: int,
    i: int,
) -> (j: int)
    requires
        covers(runs, states, pixels, px, palette),
        0 <= p,
        0 <= i < runs.len(),
        p < runs[i].end,
    ensures
        0 <= j <= i,
        runs[j].start <= p < runs[j].end,
    decreases i,
{
    if runs[i].start <= p {
        i
    } else {
        assert(runs[i - 1].end == runs[i].start);
        lemma_run_of_pixel(runs, states, pixels, px, palette, p, i - 1)
    }
}

/// Every pixel of the bar lies in a run, and the runs follow on one another
/// from the first pixel to the last, each other than the one before it.
pub proof fn runs_cover_the_bar(
    runs: Seq<ScrubRun>,
    states: Seq<CombatState>,
    pixels: int,
    palette: (BarColor, BarColor),
)
    requires
        covers(runs, states, pixels, pixels, palette),
        0 < pixels,
    ensures
        runs.len() > 0,
        runs[0].start == 0,
        runs.last().end == pixels,
        forall|i: int|
            0 <= i < runs.len() - 1 ==> (#[trigger] runs[i]).end == runs[i + 1].start
                && runs[i].color != runs[i + 1].color,
        forall|i: int| 0 <= i < runs.len() ==> (#[trigger] runs[i]).start < runs[i].end,
{
}

/// Every trade of a game is on its bar: a run in the color of a trade has the
/// pixel that shows the frame.
pub proof fn every_trade_is_on_the_bar(
    runs: Seq<ScrubRun>,
    states: Seq<CombatState>,
    pixels: int,
    palette: (BarColor, BarColor),
    f: int,
) -> (i: int)
    requires
        covers(runs, states, pixels, pixels, palette),
        0 < pixels,
        0 <= f < states.len(),
        states[f] == CombatState::Trade,
    ensures
        0 <= i < runs.len(),
        runs[i].color == BarColor::Trade,
        exists|px: int|
            runs[i].start <= px < runs[i].end && #[trigger] frame_from(states.len() as int, pixels, px)
                <= f < frame_to(states.len() as int, pixels, px),
{
    let n = states.len() as int;
    let px = lemma_pixel_of_frame(n, pixels, f);
    lemma_frames_of_pixel(n, pixels, px);
    let i = lemma_run_of_pixel(runs, states, pixels, pixels, palette, px, runs.len() - 1);
    let slice = states.subrange(frame_from(n, pixels, px), frame_to(n, pixels, px));
    assert(slice[f - frame_from(n, pixels, px)] == states[f]);
    trades_show_as_trades(slice, palette, f - frame_from(n, pixels, px));
    assert(runs[i].color == pixel_color(states, pixels, px, palette));
    assert(frame_from(n, pixels, px) <= f);
    i
}

/// A run tells of its frames: where it has a player's color, each of its pixels
/// shows a frame in which they had the advantage and none in which the other
/// had it or the two traded.
pub proof fn runs_tell_what_happened(
    runs: Seq<ScrubRun>,
    states: Seq<CombatState>,
    pixels: int,
    perspective: Option<UserPerspective>,
    i: int,
    px: int,
)
    requires
        covers(runs, states, pixels, pixels, palette_of(perspective)),
        0 < states.len(),
        0 <= i < runs.len(),
        runs[i].start <= px < runs[i].end,
        px < pixels,
    ensures
        ({
            let n = states.len() as int;
            let (from, to) = (frame_from(n, pixels, px), frame_to(n, pixels, px));
            let (p1, p2) = palette_of(perspective);
            &&& runs[i].color == p1 ==> (exists|f: int|
                from <= f < to && #[trigger] states[f] == CombatState::AdvP1) && (forall|f: int|
                from <= f < to ==> #[trigger] states[f] != CombatState::AdvP2 && states[f]
                    != CombatState::Trade)
            &&& runs[i].color == p2 ==> (exists|f: int|
                from <= f < to && #[trigger] states[f] == CombatState::AdvP2) && (forall|f: int|
                from <= f < to ==> #[trigger] states[f] != CombatState::AdvP1 && states[f]
                    != CombatState::Trade)
            &&& runs[i].color == BarColor::Neutral ==> forall|f: int|
                from <= f < to ==> #[trigger] states[f] == CombatState::Neutral
        }),
{
    let n = states.len() as int;
    let (from, to) = (frame_from(n, pixels, px), frame_to(n, pixels, px));
    let palette = palette_of(perspective);
    lemma_frames_of_pixel(n, pixels, px);
    let slice = states.subrange(from, to);
    colors_tell_what_happened(slice, palette);
    assert(runs[i].color == pixel_color(states, pixels, px, palette));
    assert forall|f: int| from <= f < to implies slice.contains(#[trigger] states[f]) by {
        assert(slice[f - from] == states[f]);
    }
    assert forall|s: CombatState| #[trigger] slice.contains(s) implies exists|f: int|
        from <= f < to && #[trigger] states[f] == s by {
        let k = choose|k: int| 0 <= k < slice.len() && slice[k] == s;
        assert(states[from + k] == s);
    }
    assert forall|f: int| from <= f < to && runs[i].color == BarColor::Neutral implies #[trigger] states[f]
        == CombatState::Neutral by {
        assert(slice[f - from] == states[f]);
    }
}

// --------------------------------------------------------- laws of the markers

/// A punish that takes no stock has a marker exactly where someone in the game
/// landed four hits or more; it stands where the combo began.
pub proof fn long_combos_are_marked(
    p: Punish,
    ports: Map<i32, i32>,
    p1_port: i32,
    names: Seq<AttackName>,
)
    requires
        p.did_kill == 0,
    ensures
        moment_of(p, ports, p1_port, names) is Some <==> p.hit_count >= 4 && ports.contains_key(
            p.attacker_id,
        ),
        moment_of(p, ports, p1_port, names) matches Some(m) ==> m.kind == KeyMomentKind::LongCombo
            && m.frame == p.start_frame,
{
}

/// Nobody outside the game has a marker, and a marker is the lower port's
/// exactly where the one who landed the hits has that port.
pub proof fn markers_know_whose_they_are(
    p: Punish,
    ports: Map<i32, i32>,
    p1_port: i32,
    names: Seq<AttackName>,
)
    ensures
        !ports.contains_key(p.attacker_id) ==> moment_of(p, ports, p1_port, names) is None,
        moment_of(p, ports, p1_port, names) matches Some(m) ==> (m.by_p1 <==> ports[p.attacker_id]
            == p1_port),
        p.did_kill != 0 && ports.contains_key(p.attacker_id) ==> (moment_of(
            p,
            ports,
            p1_port,
            names,
        ) matches Some(m) && m.kind == KeyMomentKind::Kill && m.frame == p.end_frame),
{
}

/// The markers of some punishes and some more are the markers of the first and
/// then those of the others; one punish has at most one.
pub proof fn markers_follow_the_punishes(
    xs: Seq<Punish>,
    ys: Seq<Punish>,
    ports: Map<i32, i32>,
    p1_port: i32,
    names: Seq<AttackName>,
)
    ensures
        moments_of(xs + ys, ports, p1_port, names) == moments_of(xs, ports, p1_port, names)
            + moments_of(ys, ports, p1_port, names),
        moments_of(seq![], ports, p1_port, names).len() == 0,
        forall|p: Punish|
            moment_of(p, ports, p1_port, names) is Some ==> #[trigger] moments_of(
                seq![p],
                ports,
                p1_port,
                names,
            ) == seq![moment_of(p, ports, p1_port, names)->0],
        forall|p: Punish|
            moment_of(p, ports, p1_port, names) is None ==> #[trigger] moments_of(
                seq![p],
                ports,
                p1_port,
                names,
            ) == Seq::<MomentView>::empty(),
    decreases ys.len(),
{
    reveal_with_fuel(moments_of, 2);
    assert forall|p: Punish| (#[trigger] seq![p]).drop_last() == Seq::<Punish>::empty() && seq![p].last()
        == p by {
        assert(seq![p].drop_last() =~= Seq::<Punish>::empty());
    }
    if ys.len() > 0 {
        markers_follow_the_punishes(xs, ys.drop_last(), ports, p1_port, names);
        assert((xs + ys).drop_last() =~= xs + ys.drop_last());
        assert((xs + ys).last() == ys.last());
        assert(moments_of(xs + ys, ports, p1_port, names) =~= moments_of(xs, ports, p1_port, names)
            + moments_of(ys, ports, p1_port, names));
    } else {
        assert(xs + ys =~= xs);
        assert(moments_of(xs, ports, p1_port, names) + Seq::<MomentView>::empty() =~= moments_of(
            xs,
            ports,
            p1_port,
            names,
        ));
    }
}

/// Sorting by frame loses no marker and makes up none, and keeps markers of one
/// frame in their order.
pub proof fn timelines_keep_their_markers(new: Seq<MomentView>, v: Seq<MomentView>) -> (order: Seq<
    usize,
>)
    requires
        is_timeline(new, v),
    ensures
        order.len() == v.len(),
        new.len() == v.len(),
        forall|a: int|
            0 <= a < new.len() ==> #[trigger] order[a] < v.len() && new[a] == v[order[a] as int],
        forall|a: int, b: int|
            0 <= a < b < new.len() ==> #[trigger] order[a] != #[trigger] order[b],
        forall|a: int, b: int|
            0 <= a < b < new.len() && new[a].frame == new[b].frame ==> #[trigger] order[a]
                < #[trigger] order[b],
        forall|i: int| 0 <= i < v.len() ==> new.contains(#[trigger] v[i]),
{
    let order = choose|order: Seq<usize>|
        #[trigger] is_frame_order(v, order) && new == picked(v, order);
    assert forall|i: int| 0 <= i < v.len() implies new.contains(#[trigger] v[i]) by {
        assert(order.contains(i as usize));
        let a = choose|a: int| 0 <= a < order.len() && order[a] == (i as usize);
        lemma_place_fits(v, order, i, a);
        assert(new[a] == v[i]);
    }
    order
}

/// The places of a frame order are all within what a place can be.
proof fn lemma_place_fits(v: Seq<MomentView>, order: Seq<usize>, i: int, a: int)
    requires
        is_frame_order(v, order),
        0 <= i < v.len(),
        0 <= a < order.len(),
        order[a] == i as usize,
    ensures
        order[a] == i,
{
    let places = order.map_values(|x: usize| x as int);
    assert(places.no_duplicates()) by {
        assert forall|a: int, b: int| 0 <= a < places.len() && 0 <= b < places.len() && a != b implies places[a]
            != places[b] by {
            if a < b {
                assert(order[a] != order[b]);
            } else {
                assert(order[b] != order[a]);
            }
        }
    }
    places.unique_seq_to_set();
    if v.len() > usize::MAX {
        let all = vstd::set_lib::set_int_range(0, usize::MAX as int + 1);
        vstd::set_lib::lemma_int_range(0, usize::MAX as int + 1);
        assert(places.to_set().subset_of(all)) by {
            assert forall|x: int| places.to_set().contains(x) implies all.contains(x) by {
                let a = choose|a: int| 0 <= a < places.len() && places[a] == x;
                assert(order[a] <= usize::MAX);
            }
        }
        vstd::set_lib::lemma_len_subset(places.to_set(), all);
    }
}

// ------------------------------------------------------------ laws of the page

proof fn lemma_port_of(players: Seq<ViewerPlayer>, code: Seq<char>)
    ensures
        port_of(players, code) is None <==> forall|i: int|
            0 <= i < players.len() ==> (#[trigger] players[i]).code@ != code,
        forall|i: int|
            0 <= i < players.len() && (#[trigger] players[i]).code@ == code && (forall|j: int|
                0 <= j < i ==> (#[trigger] players[j]).code@ != code) ==> port_of(players, code)
                == Some(players[i].port),
    decreases players.len(),
{
    if players.len() > 0 {
        let rest = players.drop_first();
        lemma_port_of(rest, code);
        assert forall|i: int| 0 < i < players.len() implies rest[i - 1] == #[trigger] players[i] by {}
        assert forall|i: int| 0 <= i < rest.len() implies #[trigger] rest[i] == players[i + 1] by {}
        if players[0].code@ != code {
            assert forall|i: int|
                0 <= i < players.len() && (#[trigger] players[i]).code@ == code && (forall|j: int|
                    0 <= j < i ==> (#[trigger] players[j]).code@ != code) implies port_of(players, code)
                == Some(players[i].port) by {
                assert(rest[i - 1] == players[i]);
                assert forall|j: int| 0 <= j < i - 1 implies (#[trigger] rest[j]).code@ != code by {
                    assert(players[j + 1].code@ != code);
                }
            }
            if port_of(players, code) is None {
                assert forall|i: int| 0 <= i < players.len() implies (#[trigger] players[i]).code@
                    != code by {
                    if i > 0 {
                        assert(rest[i - 1].code@ != code);
                    }
                }
            }
        }
    }
}

/// The user is the player at the lower port exactly where the first player with
/// their code has that port, likewise for the higher one; who is not in the
/// game is neither, nor is anyone where there are no frames.
pub proof fn users_are_found_by_their_port(
    code: Seq<char>,
    players: Seq<ViewerPlayer>,
    a: ReplayAnalysis,
    i: int,
)
    requires
        0 <= i < players.len(),
        players[i].code@ == code,
        forall|j: int| 0 <= j < i ==> (#[trigger] players[j]).code@ != code,
    ensures
        players[i].port == a.p1_port_idx as i32 <==> perspective_of(Some(code), players, Some(a))
            == Some(UserPerspective::P1),
        players[i].port != a.p1_port_idx as i32 ==> (players[i].port == a.p2_port_idx as i32
            <==> perspective_of(Some(code), players, Some(a)) == Some(UserPerspective::P2)),
        perspective_of(None, players, Some(a)) is None,
        perspective_of(Some(code), players, None) is None,
{
    lemma_port_of(players, code);
}

/// Who has none of the codes of the game has no side in it.
pub proof fn strangers_have_no_side(
    code: Seq<char>,
    players: Seq<ViewerPlayer>,
    analysis: Option<ReplayAnalysis>,
)
    requires
        forall|i: int| 0 <= i < players.len() ==> (#[trigger] players[i]).code@ != code,
    ensures
        perspective_of(Some(code), players, analysis) is None,
{
    lemma_port_of(players, code);
}

proof fn lemma_players_in(players: Seq<GamePlayer>, ids: Seq<Option<i32>>, n: int)
    requires
        0 <= n <= ids.len(),
    ensures
        ({
            let shown = players_in(players, ids, n);
            &&& forall|k: int|
                0 <= k < n && (#[trigger] ids[k] matches Some(id) && player_of_id(players, id) is Some)
                    ==> exists|j: int|
                    0 <= j < shown.len() && #[trigger] shown[j] == (
                        k,
                        player_of_id(players, ids[k]->0)->0.code@,
                        player_of_id(players, ids[k]->0)->0.character,
                        player_of_id(players, ids[k]->0)->0.port,
                    )
            &&& forall|j: int|
                0 <= j < shown.len() ==> 0 <= (#[trigger] shown[j]).0 < n && ids[shown[j].0] is Some
                    && (player_of_id(players, ids[shown[j].0]->0) matches Some(p) && shown[j] == (
                    shown[j].0,
                    p.code@,
                    p.character,
                    p.port,
                ))
            &&& forall|i: int, j: int|
                0 <= i < j < shown.len() ==> (#[trigger] shown[i]).0 < (#[trigger] shown[j]).0
        }),
    decreases n,
{
    if n > 0 {
        lemma_players_in(players, ids, n - 1);
        let before = players_in(players, ids, n - 1);
        let shown = players_in(players, ids, n);
        assert forall|j: int| 0 <= j < before.len() implies shown[j] == #[trigger] before[j] by {}
        assert forall|k: int|
            0 <= k < n && (#[trigger] ids[k] matches Some(id) && player_of_id(players, id) is Some)
            implies exists|j: int|
            0 <= j < shown.len() && #[trigger] shown[j] == (
                k,
                player_of_id(players, ids[k]->0)->0.code@,
                player_of_id(players, ids[k]->0)->0.character,
                player_of_id(players, ids[k]->0)->0.port,
            ) by {
            if k < n - 1 {
                let j = choose|j: int|
                    0 <= j < before.len() && #[trigger] before[j] == (
                        k,
                        player_of_id(players, ids[k]->0)->0.code@,
                        player_of_id(players, ids[k]->0)->0.character,
                        player_of_id(players, ids[k]->0)->0.port,
                    );
                assert(shown[j] == before[j]);
            } else {
                assert(shown[before.len() as int] == (
                    k,
                    player_of_id(players, ids[k]->0)->0.code@,
                    player_of_id(players, ids[k]->0)->0.character,
                    player_of_id(players, ids[k]->0)->0.port,
                ));
            }
        }
    }
}

proof fn lemma_ports_in(players: Seq<GamePlayer>, ids: Seq<Option<i32>>, n: int)
    requires
        0 <= n <= ids.len(),
    ensures
        forall|id: i32|
            #![trigger ports_in(players, ids, n).contains_key(id)]
            ports_in(players, ids, n).contains_key(id) <==> player_of_id(players, id) is Some
                && exists|k: int| 0 <= k < n && #[trigger] ids[k] == Some(id),
        forall|id: i32|
            #![trigger ports_in(players, ids, n)[id]]
            ports_in(players, ids, n).contains_key(id) ==> ports_in(players, ids, n)[id]
                == player_of_id(players, id)->0.port,
    decreases n,
{
    if n > 0 {
        lemma_ports_in(players, ids, n - 1);
        let before = ports_in(players, ids, n - 1);
        let all = ports_in(players, ids, n);
        assert forall|id: i32| #[trigger] all.contains_key(id) <==> player_of_id(players, id) is Some
            && exists|k: int| 0 <= k < n && #[trigger] ids[k] == Some(id) by {
            if all.contains_key(id) {
                if ids[n - 1] == Some(id) {
                } else {
                    assert(before.contains_key(id));
                    let k = choose|k: int| 0 <= k < n - 1 && #[trigger] ids[k] == Some(id);
                    assert(ids[k] == Some(id));
                }
            }
            if player_of_id(players, id) is Some && exists|k: int|
                0 <= k < n && #[trigger] ids[k] == Some(id) {
                let k = choose|k: int| 0 <= k < n && #[trigger] ids[k] == Some(id);
                if k < n - 1 {
                    assert(before.contains_key(id));
                }
            }
        }
    }
}

/// The page of a game shows everyone in its four slots, by placement, each with
/// their own code, character and port, and nobody else.
pub proof fn pages_show_everyone(
    v: ViewerState,
    g: Game,
    players: Seq<GamePlayer>,
    parsed: Result<ReplayAnalysis, String>,
    punishes: Seq<Punish>,
    names: Seq<AttackName>,
    user: Option<Seq<char>>,
    id: i32,
    p: GamePlayer,
)
    requires
        is_page(v, g, players, parsed, punishes, names, user),
        player_of_id(players, id) == Some(p),
    ensures
        g.first == Some(id) ==> shows_player(v, 0, p),
        g.second == Some(id) ==> shows_player(v, 1, p),
        g.third == Some(id) ==> shows_player(v, 2, p),
        g.fourth == Some(id) ==> shows_player(v, 3, p),
        forall|i: int, j: int|
            0 <= i < j < v.players@.len() ==> (#[trigger] v.players@[i]).placement < (
            #[trigger] v.players@[j]).placement,
        forall|j: int|
            0 <= j < v.players@.len() ==> (#[trigger] v.players@[j]).placement < 4 && slot_ids(
                g,
            )[v.players@[j].placement as int] is Some,
{
    let ids = slot_ids(g);
    let shown = players_in(players, ids, 4);
    lemma_players_in(players, ids, 4);
    assert(shown.len() == v.players@.len());
    assert forall|j: int| 0 <= j < v.players@.len() implies shown[j] == viewer_player(
        #[trigger] v.players@[j],
    ) by {
        assert(viewer_players(v.players@)[j] == viewer_player(v.players@[j]));
    }
    assert forall|k: int| 0 <= k < 4 && #[trigger] ids[k] == Some(id) implies shows_player(v, k, p) by {
        let j = choose|j: int|
            0 <= j < shown.len() && #[trigger] shown[j] == (k, p.code@, p.character, p.port);
        assert(viewer_player(v.players@[j]) == shown[j]);
        assert(v.players@[j].placement == k);
    }
    assert(ids[0] == g.first && ids[1] == g.second && ids[2] == g.third && ids[3] == g.fourth);
    assert forall|i: int, j: int| 0 <= i < j < v.players@.len() implies (
    #[trigger] v.players@[i]).placement < (#[trigger] v.players@[j]).placement by {
        assert(shown[i].0 < shown[j].0);
    }
    assert forall|j: int| 0 <= j < v.players@.len() implies (#[trigger] v.players@[j]).placement < 4
        && slot_ids(g)[v.players@[j].placement as int] is Some by {
        assert(shown[j].0 < 4);
    }
}

/// Whether a page shows a player at a placement.
pub open spec fn shows_player(v: ViewerState, placement: int, p: GamePlayer) -> bool {
    exists|j: int|
        0 <= j < v.players@.len() && (#[trigger] v.players@[j]).placement == placement
            && v.players@[j].code@ == p.code@ && v.players@[j].character_id == p.character
            && v.players@[j].port == p.port
}

/// Every kill by someone in one of the four slots has its marker on the page of
/// the game, as long as its frames are had.
pub proof fn pages_mark_every_kill(
    v: ViewerState,
    g: Game,
    players: Seq<GamePlayer>,
    parsed: Result<ReplayAnalysis, String>,
    punishes: Seq<Punish>,
    names: Seq<AttackName>,
    user: Option<Seq<char>>,
    i: int,
)
    requires
        is_page(v, g, players, parsed, punishes, names, user),
        g.replay_path is Some,
        parsed is Ok,
        0 <= i < punishes.len(),
        punishes[i].did_kill != 0,
        player_of_id(players, punishes[i].attacker_id) is Some,
        g.first == Some(punishes[i].attacker_id) || g.second == Some(punishes[i].attacker_id)
            || g.third == Some(punishes[i].attacker_id) || g.fourth == Some(punishes[i].attacker_id),
    ensures
        exists|j: int|
            0 <= j < v.key_moments@.len() && (#[trigger] v.key_moments@[j]).frame
                == punishes[i].end_frame && v.key_moments@[j].kind == KeyMomentKind::Kill
                && v.key_moments@[j].by_p1 == (player_of_id(players, punishes[i].attacker_id)->0.port
                == parsed->Ok_0.p1_port_idx as i32),
{
    let ids = slot_ids(g);
    let ports = ports_in(players, ids, 4);
    let a = parsed->Ok_0;
    let p1 = a.p1_port_idx as i32;
    let p = punishes[i];
    lemma_ports_in(players, ids, 4);
    assert(ids[0] == g.first && ids[1] == g.second && ids[2] == g.third && ids[3] == g.fourth);
    assert(ports.contains_key(p.attacker_id));
    assert(ports[p.attacker_id] == player_of_id(players, p.attacker_id)->0.port);
    let (xs, ys) = (punishes.take(i), punishes.skip(i));
    assert(punishes =~= xs + ys);
    let rest = ys.skip(1);
    assert(ys =~= seq![p] + rest);
    markers_follow_the_punishes(xs, ys, ports, p1, names);
    markers_follow_the_punishes(seq![p], rest, ports, p1, names);
    let all = moments_of(punishes, ports, p1, names);
    let m = moment_of(p, ports, p1, names)->0;
    let at = moments_of(xs, ports, p1, names).len() as int;
    assert(moments_of(seq![p], ports, p1, names) == seq![m]);
    assert(moments_of(ys, ports, p1, names)[0] == m);
    assert(all[at] == m);
    let new = moments(v.key_moments@);
    let order = timelines_keep_their_markers(new, all);
    assert(new.contains(all[at]));
    let j = choose|j: int| 0 <= j < new.len() && new[j] == m;
    assert(new[j] == v.key_moments@[j]@);
}

/// Without frames a page has no markers and the user no side.
pub proof fn pages_without_frames_have_no_markers(
    v: ViewerState,
    g: Game,
    players: Seq<GamePlayer>,
    parsed: Result<ReplayAnalysis, String>,
    punishes: Seq<Punish>,
    names: Seq<AttackName>,
    user: Option<Seq<char>>,
)
    requires
        is_page(v, g, players, parsed, punishes, names, user),
        g.replay_path is None || parsed is Err,
    ensures
        v.analysis is Err,
        v.key_moments@.len() == 0,
        v.user_perspective is None,
{
}

/// A marker has the color of the bar where its player has the advantage: green
/// for the user's own, red for the opponent's.
pub proof fn markers_have_the_colors_of_the_bar(by_p1: bool, perspective: UserPerspective)
    ensures
        marker_color(true, Some(perspective)) == palette_of(Some(perspective)).0,
        marker_color(false, Some(perspective)) == palette_of(Some(perspective)).1,
        marker_color(by_p1, Some(perspective)) == BarColor::Green <==> by_p1 == (perspective
            == UserPerspective::P1),
        marker_color(by_p1, Some(perspective)) == BarColor::Green || marker_color(
            by_p1,
            Some(perspective),
        ) == BarColor::Red,
        palette_of(None) == palette_of(Some(UserPerspective::P1)),
{
}

/// The legend calls the green side the user's, whichever port they have.
pub proof fn legends_name_the_user(perspective: UserPerspective)
    ensures
        palette_of(Some(perspective)).0 == BarColor::Green ==> legend_words(Some(perspective)) == (
            "You"@,
            "Opponent"@,
        ),
        palette_of(Some(perspective)).1 == BarColor::Green ==> legend_words(Some(perspective)) == (
            "Opponent"@,
            "You"@,
        ),
{
}

/// The label of a kill tells its move, where that is known, and its hits; that of
/// a combo its hits.
pub proof fn labels_tell_the_hits(p: Punish, names: Seq<AttackName>)
    ensures
        p.kill_move is Some ==> moment_label(p, KeyMomentKind::Kill, names) == "Kill: "@ + attack_text(
            names,
            p.kill_move->0,
        ) + " ("@ + integer_text(p.hit_count as int) + " hits)"@,
        p.kill_move is None ==> moment_label(p, KeyMomentKind::Kill, names) == "Kill ("@
            + integer_text(p.hit_count as int) + " hits)"@,
        moment_label(p, KeyMomentKind::LongCombo, names) == integer_text(p.hit_count as int)
            + "-hit combo"@,
{
}

} // verus!
