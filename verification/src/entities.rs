//! Players, teams and the world that holds them.
//!
//! A player's attributes are fixed-point numbers: an attribute `a` stands
//! for the fraction `a / ATTR_ONE`.  The unit is chosen so that a draw, a
//! twentieth of a draw and every fixed boost of the rules is a whole number
//! of units.

use vstd::prelude::*;
use vstd::string::StrSliceExecFns;
use vstd::string::StringExecFns;
use std::collections::BTreeMap;
use crate::events::Events;
use crate::ids::{fresh_id, hyphenated, id_text};
use crate::mods::{
    Mod, ModLifetime, Mods, ModWithLifetime, seq_has_mod, with_entry, without_lifetime,
};
use crate::rng::{draw, Rng, RngState, skip};

verus! {

/// The attribute value that stands for 1.
pub const ATTR_ONE: i64 = 90_071_992_547_409_920;

/// The number of attribute units in one step of a draw: a draw `m` stands
/// for the attribute `m * ATTR_PER_DRAW`.
pub const ATTR_PER_DRAW: i64 = 20;

/// The number of attributes of a player.
pub const ATTR_COUNT: usize = 26;

/// A generator of names: a first name and a last name, each picked by one
/// draw from its list.
#[derive(Debug)]
pub struct NameGen {
    first_names: Vec<String>,
    last_names: Vec<String>,
}

impl NameGen {
    /// The first names, as plain values.
    pub closed spec fn first_names(&self) -> Seq<Seq<char>> {
        crate::events::tags_of(self.first_names@)
    }

    /// The last names, as plain values.
    pub closed spec fn last_names(&self) -> Seq<Seq<char>> {
        crate::events::tags_of(self.last_names@)
    }

    /// A generator over the two lists.
    pub fn new(first_names: Vec<String>, last_names: Vec<String>) -> (g: NameGen)
        ensures
            g.first_names() == crate::events::tags_of(first_names@),
            g.last_names() == crate::events::tags_of(last_names@),
    {
        NameGen { first_names, last_names }
    }

    /// A name: the first name that one draw picks, a space, and the last
    /// name that the next draw picks.
    pub fn generate(&self, rng: &mut Rng) -> (name: String)
        requires
            self.first_names().len() > 0,
            self.last_names().len() > 0,
        ensures
            final(rng)@ == skip(old(rng)@, 2),
            name@ == self.first_names()[crate::rng::draw_index(
                draw(old(rng)@, 0),
                self.first_names().len(),
            ) as int] + " "@ + self.last_names()[crate::rng::draw_index(
                draw(old(rng)@, 1),
                self.last_names().len(),
            ) as int],
    {
        let first_name_index = rng.index(self.first_names.len());
        let ghost s1 = rng@;
        let last_name_index = rng.index(self.last_names.len());
        proof {
            crate::rng::lemma_skip_add(old(rng)@, 1, 1);
            assert(draw(s1, 0) == draw(old(rng)@, 1));
        }
        let mut name = self.first_names[first_name_index].clone();
        name.append(" ");
        name.append(self.last_names[last_name_index].as_str());
        name
    }
}

/// The attributes of a player, in the order in which they are stored.
#[derive(Debug, Clone, Copy, PartialEq, Eq, Structural)]
pub enum PlayerAttr {
    Buoyancy,
    Divinity,
    Martyrdom,
    Moxie,
    Musclitude,
    Patheticism,
    Thwackability,
    Tragicness,
    Coldness,
    Overpowerment,
    Ruthlessness,
    Shakespearianism,
    Suppression,
    Unthwackability,
    BaseThirst,
    Continuation,
    GroundFriction,
    Indulgence,
    Laserlikeness,
    Anticapitalism,
    Chasiness,
    Omniscience,
    Tenaciousness,
    Watchfulness,
    Pressurization,
    Cinnamon,
}

impl PlayerAttr {
    /// The position of the attribute among the 26.
    pub open spec fn index(self) -> int {
        match self {
            PlayerAttr::Buoyancy => 0,
            PlayerAttr::Divinity => 1,
            PlayerAttr::Martyrdom => 2,
            PlayerAttr::Moxie => 3,
            PlayerAttr::Musclitude => 4,
            PlayerAttr::Patheticism => 5,
            PlayerAttr::Thwackability => 6,
            PlayerAttr::Tragicness => 7,
            PlayerAttr::Coldness => 8,
            PlayerAttr::Overpowerment => 9,
            PlayerAttr::Ruthlessness => 10,
            PlayerAttr::Shakespearianism => 11,
            PlayerAttr::Suppression => 12,
            PlayerAttr::Unthwackability => 13,
            PlayerAttr::BaseThirst => 14,
            PlayerAttr::Continuation => 15,
            PlayerAttr::GroundFriction => 16,
            PlayerAttr::Indulgence => 17,
            PlayerAttr::Laserlikeness => 18,
            PlayerAttr::Anticapitalism => 19,
            PlayerAttr::Chasiness => 20,
            PlayerAttr::Omniscience => 21,
            PlayerAttr::Tenaciousness => 22,
            PlayerAttr::Watchfulness => 23,
            PlayerAttr::Pressurization => 24,
            PlayerAttr::Cinnamon => 25,
        }
    }

    /// The position of the attribute among the 26.
    pub fn discr(&self) -> (d: u8)
        ensures
            d == self.index(),
            d < 26,
    {
        match self {
            PlayerAttr::Buoyancy => 0,
            PlayerAttr::Divinity => 1,
            PlayerAttr::Martyrdom => 2,
            PlayerAttr::Moxie => 3,
            PlayerAttr::Musclitude => 4,
            PlayerAttr::Patheticism => 5,
            PlayerAttr::Thwackability => 6,
            PlayerAttr::Tragicness => 7,
            PlayerAttr::Coldness => 8,
            PlayerAttr::Overpowerment => 9,
            PlayerAttr::Ruthlessness => 10,
            PlayerAttr::Shakespearianism => 11,
            PlayerAttr::Suppression => 12,
            PlayerAttr::Unthwackability => 13,
            PlayerAttr::BaseThirst => 14,
            PlayerAttr::Continuation => 15,
            PlayerAttr::GroundFriction => 16,
            PlayerAttr::Indulgence => 17,
            PlayerAttr::Laserlikeness => 18,
            PlayerAttr::Anticapitalism => 19,
            PlayerAttr::Chasiness => 20,
            PlayerAttr::Omniscience => 21,
            PlayerAttr::Tenaciousness => 22,
            PlayerAttr::Watchfulness => 23,
            PlayerAttr::Pressurization => 24,
            PlayerAttr::Cinnamon => 25,
        }
    }

    /// Whether the attribute is one of the eight batting attributes.
    pub fn is_batting(&self) -> (b: bool)
        ensures
            b == (self.index() < 8),
    {
        self.discr() < 8
    }

    /// Whether the attribute is one of the six pitching attributes.
    pub fn is_pitching(&self) -> (b: bool)
        ensures
            b == (8 <= self.index() < 14),
    {
        let discr = self.discr();
        discr > 7 && discr < 14
    }

    /// Whether the attribute is one of the five baserunning attributes.
    pub fn is_running(&self) -> (b: bool)
        ensures
            b == (14 <= self.index() < 19),
    {
        let discr = self.discr();
        discr > 13 && discr < 19
    }

    /// Whether the attribute is one of the five defense attributes.
    pub fn is_defense(&self) -> (b: bool)
        ensures
            b == (19 <= self.index() < 24),
    {
        let discr = self.discr();
        discr > 18 && discr < 24
    }

    /// Whether the attribute is one of the two vibe attributes.
    pub fn is_vibes(&self) -> (b: bool)
        ensures
            b == (24 <= self.index()),
    {
        self.discr() > 23
    }

    /// Whether a lower value of the attribute is the better one.
    pub fn is_negative(&self) -> (b: bool)
        ensures
            b == (*self == PlayerAttr::Patheticism || *self == PlayerAttr::Tragicness),
    {
        match self {
            PlayerAttr::Patheticism => true,
            PlayerAttr::Tragicness => true,
            _ => false,
        }
    }
}

/// A legendary item that a player may hold.
#[derive(Debug, Clone, Copy, PartialEq, Eq, Structural)]
pub enum LegendaryItem {
    DialTone,
    LiteralArmCannon,
    VibeCheck,
    BangersAndSmash,
    GrapplingHook,
    Mushroom,
    NightVisionGoggles,
    ShrinkRay,
    TheIffeyJr,
    ActualAirplane,
}

/// The badge that holding `item` grants, if any.
pub open spec fn item_badge(item: LegendaryItem) -> Option<Mod> {
    match item {
        LegendaryItem::NightVisionGoggles => Some(Mod::NightVision),
        LegendaryItem::TheIffeyJr => Some(Mod::Minimized),
        LegendaryItem::ActualAirplane => Some(Mod::Blaserunning),
        _ => None,
    }
}

/// `a + b`, held within the range of an attribute.
pub open spec fn clamped_sum(a: int, b: int) -> i64 {
    if a + b > i64::MAX {
        i64::MAX
    } else if a + b < i64::MIN {
        i64::MIN
    } else {
        (a + b) as i64
    }
}

/// The sum of an attribute and a boost, held within the range of an
/// attribute.  The boost is taken away instead where `negate` is set.
pub fn add_clamped(a: i64, b: i64, negate: bool) -> (r: i64)
    ensures
        r == clamped_sum(a as int, if negate { -(b as int) } else { b as int }),
{
    let wide: i128 = if negate {
        a as i128 - b as i128
    } else {
        a as i128 + b as i128
    };
    if wide > i64::MAX as i128 {
        i64::MAX
    } else if wide < i64::MIN as i128 {
        i64::MIN
    } else {
        wide as i64
    }
}

/// The boost that reaches attribute `a` when a list of `n` boosts is
/// applied.  The boosts come in the order of the attributes; a list of 25
/// has no entry for pressurization, so that its last entry is for cinnamon.
/// A boost to patheticism or tragicness is taken away from the attribute.
pub open spec fn boost_for(boosts: Seq<i64>, a: int) -> int {
    if a == 5 || a == 7 {
        -(boosts[a] as int)
    } else if boosts.len() == 25 && a == 24 {
        0
    } else if boosts.len() == 25 && a == 25 {
        boosts[24] as int
    } else {
        boosts[a] as int
    }
}

/// The attributes `attrs` after the boosts were applied.
pub open spec fn boosted(attrs: Seq<i64>, boosts: Seq<i64>) -> Seq<i64> {
    Seq::new(26, |a: int| clamped_sum(attrs[a] as int, boost_for(boosts, a)))
}

/// The attributes of a player who is made in state `s` of the generator,
/// which gives them in a fixed order of its own: thwackability, moxie,
/// divinity, musclitude, patheticism, buoyancy, base thirst, laserlikeness,
/// ground friction, continuation, indulgence, martyrdom, tragicness,
/// shakespearianism, suppression, unthwackability, coldness, overpowerment,
/// ruthlessness, omniscience, tenaciousness, watchfulness, anticapitalism,
/// chasiness, pressurization, cinnamon.
#[verifier::opaque]
pub open spec fn rolled_attrs(s: RngState) -> Seq<i64> {
    seq![
        (draw(s, 5) * ATTR_PER_DRAW) as i64,
        (draw(s, 2) * ATTR_PER_DRAW) as i64,
        (draw(s, 11) * ATTR_PER_DRAW) as i64,
        (draw(s, 1) * ATTR_PER_DRAW) as i64,
        (draw(s, 3) * ATTR_PER_DRAW) as i64,
        (draw(s, 4) * ATTR_PER_DRAW) as i64,
        (draw(s, 0) * ATTR_PER_DRAW) as i64,
        (draw(s, 12) * ATTR_PER_DRAW) as i64,
        (draw(s, 16) * ATTR_PER_DRAW) as i64,
        (draw(s, 17) * ATTR_PER_DRAW) as i64,
        (draw(s, 18) * ATTR_PER_DRAW) as i64,
        (draw(s, 13) * ATTR_PER_DRAW) as i64,
        (draw(s, 14) * ATTR_PER_DRAW) as i64,
        (draw(s, 15) * ATTR_PER_DRAW) as i64,
        (draw(s, 6) * ATTR_PER_DRAW) as i64,
        (draw(s, 9) * ATTR_PER_DRAW) as i64,
        (draw(s, 8) * ATTR_PER_DRAW) as i64,
        (draw(s, 10) * ATTR_PER_DRAW) as i64,
        (draw(s, 7) * ATTR_PER_DRAW) as i64,
        (draw(s, 22) * ATTR_PER_DRAW) as i64,
        (draw(s, 23) * ATTR_PER_DRAW) as i64,
        (draw(s, 19) * ATTR_PER_DRAW) as i64,
        (draw(s, 20) * ATTR_PER_DRAW) as i64,
        (draw(s, 21) * ATTR_PER_DRAW) as i64,
        (draw(s, 24) * ATTR_PER_DRAW) as i64,
        (draw(s, 25) * ATTR_PER_DRAW) as i64,
    ]
}

/// A player.
#[derive(Debug)]
pub struct Player {
    pub id: u128,
    pub name: String,
    pub mods: Mods,
    pub legendary_item: Option<LegendaryItem>,
    pub team: Option<u128>,
    pub feed: Events,
    pub swept_on: Option<usize>,
    pub scattered_letters: u8,
    pub attrs: [i64; 26],
}

/// What a player is, as plain values.
pub struct PlayerView {
    pub id: u128,
    pub name: Seq<char>,
    pub mods: Seq<ModWithLifetime>,
    pub legendary_item: Option<LegendaryItem>,
    pub team: Option<u128>,
    pub feed: Seq<Seq<char>>,
    pub swept_on: Option<usize>,
    pub scattered_letters: u8,
    pub attrs: Seq<i64>,
}

impl View for Player {
    type V = PlayerView;

    open spec fn view(&self) -> PlayerView {
        PlayerView {
            id: self.id,
            name: self.name@,
            mods: self.mods@,
            legendary_item: self.legendary_item,
            team: self.team,
            feed: self.feed@,
            swept_on: self.swept_on,
            scattered_letters: self.scattered_letters,
            attrs: self.attrs@,
        }
    }
}

impl Clone for Player {
    fn clone(&self) -> (r: Player)
        ensures
            r@ == self@,
    {
        Player {
            id: self.id,
            name: self.name.clone(),
            mods: self.mods.clone(),
            legendary_item: self.legendary_item,
            team: self.team,
            feed: self.feed.clone(),
            swept_on: self.swept_on,
            scattered_letters: self.scattered_letters,
            attrs: self.attrs,
        }
    }
}

/// The player with identity `id` whom a generator in state `s` makes: no
/// name, no team, no badge, no item, an empty feed.
pub open spec fn rolled_player(id: u128, s: RngState) -> PlayerView {
    PlayerView {
        id,
        name: Seq::empty(),
        mods: Seq::empty(),
        legendary_item: None,
        team: None,
        feed: Seq::empty(),
        swept_on: None,
        scattered_letters: 0,
        attrs: rolled_attrs(s),
    }
}

/// What a runner with the badges `mods` adds to the value of the run that
/// the runner scores, in tenths of a run.
pub open spec fn runner_run_value(mods: Seq<ModWithLifetime>) -> i64 {
    if seq_has_mod(mods, Mod::Wired) {
        5
    } else if seq_has_mod(mods, Mod::Tired) {
        -5i64
    } else {
        0
    }
}

impl Player {
    /// A new player with a fresh random identity, whose 26 attributes are
    /// the next 26 draws.
    pub fn new(rng: &mut Rng) -> (p: Player)
        ensures
            p@ == rolled_player(p.id, old(rng)@),
            final(rng)@ == skip(old(rng)@, 26),
    {
        let id = fresh_id();
        let mut d: Vec<i64> = Vec::new();
        while d.len() < 26
            invariant
                d.len() <= 26,
                rng@ == skip(old(rng)@, d.len() as nat),
                forall|k: int|
                    0 <= k < d.len() ==> d@[k] == (draw(old(rng)@, k as nat) * ATTR_PER_DRAW) as i64,
            decreases 26 - d.len(),
        {
            let m = rng.next();
            assert(m * 20 < i64::MAX) by (nonlinear_arith)
                requires
                    m < 0x10_0000_0000_0000u64,
            ;
            d.push((m as i64) * ATTR_PER_DRAW);
        }
        let attrs: [i64; 26] = [
            d[5],
            d[2],
            d[11],
            d[1],
            d[3],
            d[4],
            d[0],
            d[12],
            d[16],
            d[17],
            d[18],
            d[13],
            d[14],
            d[15],
            d[6],
            d[9],
            d[8],
            d[10],
            d[7],
            d[22],
            d[23],
            d[19],
            d[20],
            d[21],
            d[24],
            d[25],
        ];
        assert(attrs@ =~= rolled_attrs(old(rng)@)) by {
            reveal(rolled_attrs);
        }
        Player {
            id,
            name: String::new(),
            mods: Mods::new(),
            legendary_item: None,
            team: None,
            feed: Events::new(),
            swept_on: None,
            scattered_letters: 0,
            attrs,
        }
    }

    /// The value of one attribute.
    pub fn attr(&self, a: PlayerAttr) -> (v: i64)
        ensures
            v == self@.attrs[a.index()],
    {
        self.attrs[a.discr() as usize]
    }

    /// Adds the boosts to the attributes, in the order of the attributes.
    /// A boost to patheticism or tragicness is taken away instead.  A list
    /// of 25 boosts leaves pressurization as it is.
    pub fn boost(&mut self, boosts: &Vec<i64>)
        requires
            boosts@.len() >= 25,
        ensures
            final(self)@ == (PlayerView { attrs: boosted(old(self)@.attrs, boosts@), ..old(self)@ }),
    {
        let mut a: usize = 0;
        while a < 24
            invariant
                a <= 24,
                boosts@.len() >= 25,
                self.id == old(self).id,
                self.name == old(self).name,
                self.mods == old(self).mods,
                self.legendary_item == old(self).legendary_item,
                self.team == old(self).team,
                self.feed == old(self).feed,
                self.swept_on == old(self).swept_on,
                self.scattered_letters == old(self).scattered_letters,
                forall|k: int|
                    0 <= k < a ==> self.attrs@[k] == clamped_sum(
                        old(self).attrs@[k] as int,
                        boost_for(boosts@, k),
                    ),
                forall|k: int| a <= k < 26 ==> self.attrs@[k] == old(self).attrs@[k],
            decreases 24 - a,
        {
            self.attrs[a] = add_clamped(self.attrs[a], boosts[a], a == 5 || a == 7);
            a += 1;
        }
        if boosts.len() == 25 {
            self.attrs[25] = add_clamped(self.attrs[25], boosts[24], false);
        } else {
            self.attrs[24] = add_clamped(self.attrs[24], boosts[24], false);
            self.attrs[25] = add_clamped(self.attrs[25], boosts[25], false);
        }
        assert(self.attrs@ =~= boosted(old(self)@.attrs, boosts@));
    }

    /// Hands the player a legendary item, with the badge that it grants.
    pub fn add_legendary_item(&mut self, item: LegendaryItem)
        ensures
            final(self)@ == (PlayerView {
                legendary_item: Some(item),
                mods: match item_badge(item) {
                    Some(m) => with_entry(
                        old(self)@.mods,
                        ModWithLifetime { lifetime: ModLifetime::LegendaryItem, the_mod: m },
                    ),
                    None => old(self)@.mods,
                },
                ..old(self)@
            }),
    {
        match item {
            LegendaryItem::NightVisionGoggles => {
                self.mods.add(Mod::NightVision, ModLifetime::LegendaryItem);
            },
            LegendaryItem::TheIffeyJr => {
                self.mods.add(Mod::Minimized, ModLifetime::LegendaryItem);
            },
            LegendaryItem::ActualAirplane => {
                self.mods.add(Mod::Blaserunning, ModLifetime::LegendaryItem);
            },
            _ => {},
        }
        self.legendary_item = Some(item);
    }

    /// Takes the player's legendary item away, with the badges that items
    /// granted.
    pub fn remove_legendary_item(&mut self)
        ensures
            final(self)@ == (PlayerView {
                legendary_item: None,
                mods: without_lifetime(old(self)@.mods, ModLifetime::LegendaryItem),
                ..old(self)@
            }),
    {
        self.mods.clear_legendary_item();
        self.legendary_item = None;
    }

    /// What the player adds to the value of a run that the player scores, in
    /// tenths of a run: half a run more if wired, half a run less if tired.
    pub fn get_run_value(&self) -> (v: i64)
        ensures
            v == runner_run_value(self@.mods),
    {
        if self.mods.has(Mod::Wired) {
            5
        } else if self.mods.has(Mod::Tired) {
            -5
        } else {
            0
        }
    }
}

/// A team.
#[derive(Debug)]
pub struct Team {
    pub id: u128,
    pub name: String,
    pub emoji: String,
    pub lineup: Vec<u128>,
    pub rotation: Vec<u128>,
    pub shadows: Vec<u128>,
    pub wins: i16,
    pub losses: i16,
    pub postseason_wins: i16,
    pub postseason_losses: i16,
    pub partying: bool,
    pub fate: usize,
    pub mods: Mods,
}

/// What a team is, as plain values.
pub struct TeamView {
    pub id: u128,
    pub name: Seq<char>,
    pub emoji: Seq<char>,
    pub lineup: Seq<u128>,
    pub rotation: Seq<u128>,
    pub shadows: Seq<u128>,
    pub wins: i16,
    pub losses: i16,
    pub postseason_wins: i16,
    pub postseason_losses: i16,
    pub partying: bool,
    pub fate: usize,
    pub mods: Seq<ModWithLifetime>,
}

impl View for Team {
    type V = TeamView;

    open spec fn view(&self) -> TeamView {
        TeamView {
            id: self.id,
            name: self.name@,
            emoji: self.emoji@,
            lineup: self.lineup@,
            rotation: self.rotation@,
            shadows: self.shadows@,
            wins: self.wins,
            losses: self.losses,
            postseason_wins: self.postseason_wins,
            postseason_losses: self.postseason_losses,
            partying: self.partying,
            fate: self.fate,
            mods: self.mods@,
        }
    }
}

impl Clone for Team {
    fn clone(&self) -> (r: Team)
        ensures
            r@ == self@,
    {
        Team {
            id: self.id,
            name: self.name.clone(),
            emoji: self.emoji.clone(),
            lineup: self.lineup.clone(),
            rotation: self.rotation.clone(),
            shadows: self.shadows.clone(),
            wins: self.wins,
            losses: self.losses,
            postseason_wins: self.postseason_wins,
            postseason_losses: self.postseason_losses,
            partying: self.partying,
            fate: self.fate,
            mods: self.mods.clone(),
        }
    }
}

/// The position of the first `id` in `s`, or the length of `s` if there is
/// none.
pub open spec fn position_of(s: Seq<u128>, id: u128) -> int
    decreases s.len(),
{
    if s.len() == 0 {
        0
    } else if s[0] == id {
        0
    } else {
        1 + position_of(s.drop_first(), id)
    }
}

/// `position_of` finds `id` exactly when `s` holds it, and at its first
/// place.
pub proof fn lemma_position_of(s: Seq<u128>, id: u128)
    ensures
        0 <= position_of(s, id) <= s.len(),
        position_of(s, id) < s.len() ==> s[position_of(s, id)] == id,
        forall|j: int| 0 <= j < position_of(s, id) ==> s[j] != id,
        s.contains(id) <==> position_of(s, id) < s.len(),
    decreases s.len(),
{
    if s.len() > 0 && s[0] != id {
        let t = s.drop_first();
        lemma_position_of(t, id);
        assert forall|j: int| 0 <= j < position_of(s, id) implies s[j] != id by {
            if j > 0 {
                assert(s[j] == t[j - 1]);
            }
        }
        if position_of(t, id) < t.len() {
            assert(s[position_of(s, id)] == t[position_of(t, id)]);
        }
        if s.contains(id) {
            let i = choose|i: int| 0 <= i < s.len() && s[i] == id;
            assert(t[i - 1] == s[i]);
        }
    }
}

/// The position of the first `id` in `v`, or the length of `v` if there is
/// none.
pub fn find_id(v: &Vec<u128>, id: u128) -> (i: usize)
    ensures
        i == position_of(v@, id),
        i <= v@.len(),
        i < v@.len() ==> v@[i as int] == id,
        v@.contains(id) <==> i < v@.len(),
{
    let mut i: usize = 0;
    proof {
        lemma_position_of(v@, id);
    }
    while i < v.len()
        invariant
            i <= v.len(),
            forall|j: int| 0 <= j < i ==> v@[j] != id,
            0 <= position_of(v@, id) <= v@.len(),
            position_of(v@, id) < v@.len() ==> v@[position_of(v@, id)] == id,
            forall|j: int| 0 <= j < position_of(v@, id) ==> v@[j] != id,
            v@.contains(id) <==> position_of(v@, id) < v@.len(),
        decreases v.len() - i,
    {
        if v[i] == id {
            return i;
        }
        i += 1;
    }
    i
}

/// `s` with its first `id` replaced by `new_id`.
pub open spec fn with_replaced(s: Seq<u128>, id: u128, new_id: u128) -> Seq<u128> {
    s.update(position_of(s, id), new_id)
}

/// The team `t` after `new_id` took the place of `id`: in the lineup if
/// `id` bats, else in the rotation if `id` pitches, else in the shadows.
pub open spec fn team_with_replaced(t: TeamView, id: u128, new_id: u128) -> TeamView {
    if t.lineup.contains(id) {
        TeamView { lineup: with_replaced(t.lineup, id, new_id), ..t }
    } else if t.rotation.contains(id) {
        TeamView { rotation: with_replaced(t.rotation, id, new_id), ..t }
    } else {
        TeamView { shadows: with_replaced(t.shadows, id, new_id), ..t }
    }
}

impl Team {
    /// Whether `id` plays for the team, in whatever role.
    pub open spec fn has_member(&self, id: u128) -> bool {
        self.lineup@.contains(id) || self.rotation@.contains(id) || self.shadows@.contains(id)
    }

    /// Whether `id` plays for the team, in whatever role.
    pub fn is_member(&self, id: u128) -> (b: bool)
        ensures
            b == self.has_member(id),
    {
        find_id(&self.lineup, id) < self.lineup.len() || find_id(&self.rotation, id)
            < self.rotation.len() || find_id(&self.shadows, id) < self.shadows.len()
    }

    /// Puts `new_id` in the place of `id`: in the lineup if `id` bats, else
    /// in the rotation if `id` pitches, else in the shadows.
    pub fn replace_player(&mut self, id: u128, new_id: u128)
        requires
            old(self).has_member(id),
        ensures
            final(self)@ == team_with_replaced(old(self)@, id, new_id),
    {
        let i = find_id(&self.lineup, id);
        if i < self.lineup.len() {
            self.lineup.set(i, new_id);
            return ;
        }
        let j = find_id(&self.rotation, id);
        if j < self.rotation.len() {
            self.rotation.set(j, new_id);
            return ;
        }
        let k = find_id(&self.shadows, id);
        self.shadows.set(k, new_id);
    }
}

/// A ballpark.
#[derive(Debug)]
pub struct Stadium {
    pub id: u128,
    pub name: String,
}

impl Clone for Stadium {
    fn clone(&self) -> (r: Stadium)
        ensures
            r == *self,
    {
        Stadium { id: self.id, name: self.name.clone() }
    }
}

/// The players and teams of a league, each under its identity, and the
/// hall of the players who left their teams.
#[derive(Debug)]
pub struct World {
    pub players: BTreeMap<u128, Player>,
    pub teams: BTreeMap<u128, Team>,
    pub stadiums: BTreeMap<u128, Stadium>,
    pub hall: Vec<u128>,
    pub season_ruleset: u8,
}

/// What a world holds, as plain values.
pub struct WorldView {
    pub players: Map<u128, PlayerView>,
    pub teams: Map<u128, TeamView>,
    pub hall: Seq<u128>,
    pub season_ruleset: u8,
}

/// The views of the players of a map.
pub open spec fn players_view(m: Map<u128, Player>) -> Map<u128, PlayerView> {
    m.map_values(|p: Player| p@)
}

/// The views of the teams of a map.
pub open spec fn teams_view(m: Map<u128, Team>) -> Map<u128, TeamView> {
    m.map_values(|t: Team| t@)
}

impl View for World {
    type V = WorldView;

    open spec fn view(&self) -> WorldView {
        WorldView {
            players: players_view(self.players@),
            teams: teams_view(self.teams@),
            hall: self.hall@,
            season_ruleset: self.season_ruleset,
        }
    }
}

impl Clone for World {
    fn clone(&self) -> (r: World)
        ensures
            r@ == self@,
    {
        World {
            players: self.players.clone(),
            teams: self.teams.clone(),
            stadiums: self.stadiums.clone(),
            hall: self.hall.clone(),
            season_ruleset: self.season_ruleset,
        }
    }
}

/// The name that a generated player gets: "Player" and the first eight
/// digits of the hyphenated identity.
pub open spec fn generated_name(id: u128) -> Seq<char> {
    "Player "@ + hyphenated(id).subrange(0, 8)
}

/// The player `p` with the badges of lifetime `lifetime` taken off.
pub open spec fn player_without_lifetime(p: PlayerView, lifetime: ModLifetime) -> PlayerView {
    PlayerView { mods: without_lifetime(p.mods, lifetime), ..p }
}

/// The world `w` after `player` left the team for the hall and
/// `replacement` took the place.
pub open spec fn world_with_replaced(w: WorldView, player: u128, replacement: u128) -> WorldView {
    let team = w.players[player].team->0;
    WorldView {
        players: w.players.insert(player, PlayerView { team: None, ..w.players[player] }),
        teams: w.teams.insert(team, team_with_replaced(w.teams[team], player, replacement)),
        hall: w.hall.push(player),
        ..w
    }
}

/// The world `w` after the players `a` and `b` changed teams with each
/// other.
pub open spec fn world_with_swapped(w: WorldView, a: u128, b: u128) -> WorldView {
    let team_a = w.players[a].team->0;
    let team_b = w.players[b].team->0;
    let players = w.players.insert(a, PlayerView { team: Some(team_b), ..w.players[a] });
    let players = players.insert(b, PlayerView { team: Some(team_a), ..players[b] });
    let teams = w.teams.insert(team_a, team_with_replaced(w.teams[team_a], a, b));
    let teams = teams.insert(team_b, team_with_replaced(teams[team_b], b, a));
    WorldView { players, teams, ..w }
}

/// What has to hold for `world_with_swapped`: both players are known and on
/// teams that are known and list them.
pub open spec fn can_swap(w: WorldView, a: u128, b: u128) -> bool {
    &&& w.players.contains_key(a)
    &&& w.players.contains_key(b)
    &&& w.players[a].team is Some
    &&& w.players[b].team is Some
    &&& w.teams.contains_key(w.players[a].team->0)
    &&& w.teams.contains_key(w.players[b].team->0)
    &&& team_lists(w.teams[w.players[a].team->0], a)
    &&& team_lists(
        w.teams.insert(
            w.players[a].team->0,
            team_with_replaced(w.teams[w.players[a].team->0], a, b),
        )[w.players[b].team->0],
        b,
    )
}

/// Whether the team lists the player, in whatever role.
pub open spec fn team_lists(t: TeamView, id: u128) -> bool {
    t.lineup.contains(id) || t.rotation.contains(id) || t.shadows.contains(id)
}

impl World {
    /// An empty world that plays by the rules of the given season.
    pub fn new(season_ruleset: u8) -> (w: World)
        ensures
            w@ == (WorldView {
                players: Map::empty(),
                teams: Map::empty(),
                hall: Seq::empty(),
                season_ruleset,
            }),
    {
        let w = World {
            players: BTreeMap::new(),
            teams: BTreeMap::new(),
            stadiums: BTreeMap::new(),
            hall: Vec::new(),
            season_ruleset,
        };
        assert(w@.players =~= Map::empty());
        assert(w@.teams =~= Map::empty());
        w
    }

    /// Whether the world knows the player.
    pub fn has_player(&self, id: u128) -> (b: bool)
        ensures
            b == self@.players.contains_key(id),
    {
        broadcast use vstd::std_specs::btree::group_btree_axioms;

        self.players.contains_key(&id)
    }

    /// Whether the world knows the team.
    pub fn has_team(&self, id: u128) -> (b: bool)
        ensures
            b == self@.teams.contains_key(id),
    {
        broadcast use vstd::std_specs::btree::group_btree_axioms;

        self.teams.contains_key(&id)
    }

    /// The player with the identity `id`.
    pub fn player(&self, id: u128) -> (p: &Player)
        requires
            self@.players.contains_key(id),
        ensures
            p@ == self@.players[id],
            *p == self.players@[id],
    {
        broadcast use vstd::std_specs::btree::group_btree_axioms;

        self.players.get(&id).unwrap()
    }

    /// The team with the identity `id`.
    pub fn team(&self, id: u128) -> (t: &Team)
        requires
            self@.teams.contains_key(id),
        ensures
            t@ == self@.teams[id],
            *t == self.teams@[id],
    {
        broadcast use vstd::std_specs::btree::group_btree_axioms;

        self.teams.get(&id).unwrap()
    }

    /// The place of the player `id` in the map, from `BTreeMap::get_mut`:
    /// what is written through the reference is what the map then holds
    /// under `id`, and nothing else changes.
    #[verifier::external_body]
    fn player_slot(&mut self, id: u128) -> (p: &mut Player)
        requires
            old(self).players@.contains_key(id),
        ensures
            *p == old(self).players@[id],
            *final(self) == (World {
                players: final(self).players,
                ..*old(self)
            }),
            final(self).players@ == old(self).players@.insert(id, *final(p)),
    {
        self.players.get_mut(&id).unwrap()
    }

    /// The place of the team `id` in the map, from `BTreeMap::get_mut`:
    /// what is written through the reference is what the map then holds
    /// under `id`, and nothing else changes.
    #[verifier::external_body]
    fn team_slot(&mut self, id: u128) -> (t: &mut Team)
        requires
            old(self).teams@.contains_key(id),
        ensures
            *t == old(self).teams@[id],
            *final(self) == (World { teams: final(self).teams, ..*old(self) }),
            final(self).teams@ == old(self).teams@.insert(id, *final(t)),
    {
        self.teams.get_mut(&id).unwrap()
    }

    /// The player with the identity `id`, to be changed in place.
    pub fn player_mut(&mut self, id: u128) -> (p: &mut Player)
        requires
            old(self)@.players.contains_key(id),
        ensures
            *p == old(self).players@[id],
            p@ == old(self)@.players[id],
            final(self)@ == (WorldView {
                players: old(self)@.players.insert(id, final(p)@),
                ..old(self)@
            }),
    {
        let p = self.player_slot(id);
        proof {
            assert forall|q: Player| #[trigger]
                players_view(old(self).players@.insert(id, q)) == old(self)@.players.insert(
                    id,
                    q@,
                ) by {
                assert(players_view(old(self).players@.insert(id, q)) =~= old(
                    self,
                )@.players.insert(id, q@));
            }
        }
        p
    }

    /// The team with the identity `id`, to be changed in place.
    pub fn team_mut(&mut self, id: u128) -> (t: &mut Team)
        requires
            old(self)@.teams.contains_key(id),
        ensures
            *t == old(self).teams@[id],
            t@ == old(self)@.teams[id],
            final(self)@ == (WorldView {
                teams: old(self)@.teams.insert(id, final(t)@),
                ..old(self)@
            }),
    {
        let t = self.team_slot(id);
        proof {
            assert forall|q: Team| #[trigger]
                teams_view(old(self).teams@.insert(id, q)) == old(self)@.teams.insert(id, q@) by {
                assert(teams_view(old(self).teams@.insert(id, q)) =~= old(self)@.teams.insert(
                    id,
                    q@,
                ));
            }
        }
        t
    }

    /// Puts the player into the world, under the player's identity.
    pub fn insert_player(&mut self, player: Player)
        ensures
            final(self)@ == (WorldView {
                players: old(self)@.players.insert(player.id, player@),
                ..old(self)@
            }),
    {
        broadcast use vstd::std_specs::btree::group_btree_axioms;

        let ghost id = player.id;
        let ghost pv = player@;
        self.players.insert(player.id, player);
        assert(self@.players =~= old(self)@.players.insert(id, pv));
    }

    /// Puts the team into the world, under the team's identity.
    pub fn insert_team(&mut self, team: Team)
        ensures
            final(self)@ == (WorldView {
                teams: old(self)@.teams.insert(team.id, team@),
                ..old(self)@
            }),
    {
        broadcast use vstd::std_specs::btree::group_btree_axioms;

        let ghost id = team.id;
        let ghost tv = team@;
        self.teams.insert(team.id, team);
        assert(self@.teams =~= old(self)@.teams.insert(id, tv));
    }

    /// Retires a player to the hall and gives the place on the team to
    /// `new_player_id`.
    pub fn replace_player(&mut self, player_id: u128, new_player_id: u128)
        requires
            old(self)@.players.contains_key(player_id),
            old(self)@.players[player_id].team is Some,
            old(self)@.teams.contains_key(old(self)@.players[player_id].team->0),
            team_lists(old(self)@.teams[old(self)@.players[player_id].team->0], player_id),
        ensures
            final(self)@ == world_with_replaced(old(self)@, player_id, new_player_id),
    {
        let player = self.player_mut(player_id);
        let team_id = player.team.unwrap();
        player.team = None;
        self.hall.push(player_id);
        let team = self.team_mut(team_id);
        team.replace_player(player_id, new_player_id);
    }

    /// Lets two players change teams with each other.
    pub fn swap(&mut self, player1_id: u128, player2_id: u128)
        requires
            can_swap(old(self)@, player1_id, player2_id),
        ensures
            final(self)@ == world_with_swapped(old(self)@, player1_id, player2_id),
    {
        let team_id_1 = self.player(player1_id).team.unwrap();
        let team_id_2 = self.player(player2_id).team.unwrap();
        let ghost w0 = self@;
        let player1 = self.player_mut(player1_id);
        player1.team = Some(team_id_2);
        let ghost w1 = self@;
        assert(w1.players == w0.players.insert(
            player1_id,
            PlayerView { team: Some(team_id_2), ..w0.players[player1_id] },
        ));
        let player2 = self.player_mut(player2_id);
        player2.team = Some(team_id_1);
        let ghost w2 = self@;
        assert(w2.players == w1.players.insert(
            player2_id,
            PlayerView { team: Some(team_id_1), ..w1.players[player2_id] },
        ));
        assert(w2.teams == w0.teams);
        let team1 = self.team_mut(team_id_1);
        assert(team1@ == w0.teams[team_id_1]);
        team1.replace_player(player1_id, player2_id);
        let ghost w3 = self@;
        assert(w3.teams == w0.teams.insert(
            team_id_1,
            team_with_replaced(w0.teams[team_id_1], player1_id, player2_id),
        ));
        let team2 = self.team_mut(team_id_2);
        assert(team2@ == w3.teams[team_id_2]);
        team2.replace_player(player2_id, player1_id);
    }

    /// Gives the place of a player on a team to a player from the hall.  The
    /// first player is left without a team.
    pub fn swap_hall(&mut self, player1_id: u128, player2_id: u128)
        requires
            old(self)@.players.contains_key(player1_id),
            old(self)@.players.contains_key(player2_id),
            old(self)@.players[player1_id].team is Some,
            old(self)@.teams.contains_key(old(self)@.players[player1_id].team->0),
            team_lists(old(self)@.teams[old(self)@.players[player1_id].team->0], player1_id),
        ensures
            final(self)@ == ({
                let w = old(self)@;
                let team = w.players[player1_id].team->0;
                let players = w.players.insert(
                    player1_id,
                    PlayerView { team: None, ..w.players[player1_id] },
                );
                WorldView {
                    players: players.insert(
                        player2_id,
                        PlayerView { team: Some(team), ..players[player2_id] },
                    ),
                    teams: w.teams.insert(
                        team,
                        team_with_replaced(w.teams[team], player1_id, player2_id),
                    ),
                    ..w
                }
            }),
    {
        let team_id_1 = self.player(player1_id).team.unwrap();
        let ghost w0 = self@;
        let player1 = self.player_mut(player1_id);
        player1.team = None;
        let ghost w1 = self@;
        assert(w1.players == w0.players.insert(
            player1_id,
            PlayerView { team: None, ..w0.players[player1_id] },
        ));
        let player2 = self.player_mut(player2_id);
        player2.team = Some(team_id_1);
        let ghost w2 = self@;
        assert(w2.players == w1.players.insert(
            player2_id,
            PlayerView { team: Some(team_id_1), ..w1.players[player2_id] },
        ));
        let team1 = self.team_mut(team_id_1);
        assert(team1@ == w0.teams[team_id_1]);
        team1.replace_player(player1_id, player2_id);
    }

    /// Puts a ready-made player on a team, under a generated name.  The
    /// team's lists are left as they are.
    pub fn add_rolled_player(&mut self, player: Player, team: u128) -> (id: u128)
        ensures
            id == player.id,
            final(self)@ == (WorldView {
                players: old(self)@.players.insert(
                    id,
                    PlayerView { name: generated_name(id), team: Some(team), ..player@ },
                ),
                ..old(self)@
            }),
    {
        let mut player = player;
        let id = player.id;
        let text = id_text(id);
        let mut name = String::from_str("Player ");
        name.append(text.as_str().substring_char(0, 8));
        player.name = name;
        player.team = Some(team);
        self.insert_player(player);
        id
    }

    /// Makes a new player for a team: 26 draws for the attributes and eight
    /// more that are discarded.  The team's lists are left as they are.
    pub fn gen_player(&mut self, rng: &mut Rng, team: u128) -> (id: u128)
        ensures
            final(rng)@ == skip(old(rng)@, 34),
            final(self)@ == (WorldView {
                players: old(self)@.players.insert(
                    id,
                    PlayerView {
                        name: generated_name(id),
                        team: Some(team),
                        ..rolled_player(id, old(rng)@)
                    },
                ),
                ..old(self)@
            }),
    {
        let player = Player::new(rng);
        let mut k: usize = 0;
        while k < 8
            invariant
                k <= 8,
                rng@ == skip(old(rng)@, (26 + k) as nat),
            decreases 8 - k,
        {
            let _ = rng.next();
            k += 1;
        }
        self.add_rolled_player(player, team)
    }

    /// A player of the hall, chosen by one draw.
    pub fn random_hall_player(&self, rng: &mut Rng) -> (id: u128)
        requires
            self@.hall.len() > 0,
        ensures
            final(rng)@ == skip(old(rng)@, 1),
            id == self@.hall[crate::rng::draw_index(draw(old(rng)@, 0), self@.hall.len()) as int],
    {
        let index = rng.index(self.hall.len());
        self.hall[index]
    }

    /// The identities of the players of the world, each once.
    pub fn player_ids(&self) -> (ids: Vec<u128>)
        ensures
            ids@.to_set() == self@.players.dom(),
            ids@.no_duplicates(),
    {
        broadcast use vstd::std_specs::btree::group_btree_axioms;

        let mut out: Vec<u128> = Vec::new();
        assert(self@.players.dom() =~= self.players@.dom());
        for k in it: self.players.keys()
            invariant
                out@ =~= it.seq().unref().take(it.index() as int),
                it.seq().unref().to_set() == self.players@.dom(),
                it.seq().no_duplicates(),
                it.index() == it.seq().len() ==> out@.to_set() == self.players@.dom()
                    && out@.no_duplicates(),
        {
            out.push(*k);
            assert(it.seq().unref().take(it.index() + 1) =~= it.seq().unref().take(
                it.index() as int,
            ).push(*k));
            assert(it.index() + 1 == it.seq().len() ==> it.seq().unref().take(it.index() + 1)
                =~= it.seq().unref());
            assert forall|i: int, j: int|
                0 <= i < it.seq().len() && 0 <= j < it.seq().len() && i != j implies it.seq().unref()[i]
                != it.seq().unref()[j] by {
                assert(it.seq()[i] != it.seq()[j]);
            }
        }
        out
    }

    /// The identities of the teams of the world, each once.
    pub fn team_ids(&self) -> (ids: Vec<u128>)
        ensures
            ids@.to_set() == self@.teams.dom(),
            ids@.no_duplicates(),
    {
        broadcast use vstd::std_specs::btree::group_btree_axioms;

        let mut out: Vec<u128> = Vec::new();
        assert(self@.teams.dom() =~= self.teams@.dom());
        for k in it: self.teams.keys()
            invariant
                out@ =~= it.seq().unref().take(it.index() as int),
                it.seq().unref().to_set() == self.teams@.dom(),
                it.seq().no_duplicates(),
                it.index() == it.seq().len() ==> out@.to_set() == self.teams@.dom()
                    && out@.no_duplicates(),
        {
            out.push(*k);
            assert(it.seq().unref().take(it.index() + 1) =~= it.seq().unref().take(
                it.index() as int,
            ).push(*k));
            assert(it.index() + 1 == it.seq().len() ==> it.seq().unref().take(it.index() + 1)
                =~= it.seq().unref());
            assert forall|i: int, j: int|
                0 <= i < it.seq().len() && 0 <= j < it.seq().len() && i != j implies it.seq().unref()[i]
                != it.seq().unref()[j] by {
                assert(it.seq()[i] != it.seq()[j]);
            }
        }
        out
    }

    /// The identity of the team of the name `name`: of the one with the
    /// least identity, if there are several.
    pub fn find_team(&self, name: &String) -> (r: Option<u128>)
        ensures
            r == named_team(self@, name@),
    {
        let ids = self.team_ids();
        let mut best: Option<u128> = None;
        let mut i: usize = 0;
        while i < ids.len()
            invariant
                i <= ids.len(),
                ids@.to_set() == self@.teams.dom(),
                best matches Some(id) ==> is_named(self@, name@, id) && forall|j: int|
                    0 <= j < i && is_named(self@, name@, #[trigger] ids@[j]) ==> id <= ids@[j],
                best is None ==> forall|j: int|
                    0 <= j < i ==> !is_named(self@, name@, #[trigger] ids@[j]),
            decreases ids.len() - i,
        {
            let id = ids[i];
            assert(ids@.to_set().contains(ids@[i as int]));
            if self.team(id).name == *name {
                best = match best {
                    Some(b) => if id < b {
                        Some(id)
                    } else {
                        Some(b)
                    },
                    None => Some(id),
                };
            }
            i += 1;
        }
        proof {
            match best {
                Some(id) => {
                    assert forall|k: u128| is_named(self@, name@, k) implies id <= k by {
                        assert(ids@.to_set().contains(k));
                        let j = choose|j: int| 0 <= j < ids@.len() && ids@[j] == k;
                        assert(is_named(self@, name@, ids@[j]));
                    }
                    lemma_named_team(self@, name@, id);
                },
                None => {
                    assert forall|k: u128| !is_named(self@, name@, k) by {
                        if is_named(self@, name@, k) {
                            assert(ids@.to_set().contains(k));
                            let j = choose|j: int| 0 <= j < ids@.len() && ids@[j] == k;
                            assert(!is_named(self@, name@, ids@[j]));
                        }
                    }
                },
            }
        }
        best
    }

    /// The team of the name `name`: the one with the least identity, if
    /// there are several.
    pub fn team_name(&self, name: String) -> (t: &Team)
        requires
            named_team(self@, name@) is Some,
        ensures
            t@ == self@.teams[named_team(self@, name@)->0],
            t@.name == name@,
    {
        let id = self.find_team(&name).unwrap();
        proof {
            lemma_named_team_is_named(self@, name@);
        }
        self.team(id)
    }

    /// The team of the name `name`, to be changed in place: the one with
    /// the least identity, if there are several.
    pub fn team_name_mut(&mut self, name: String) -> (t: &mut Team)
        requires
            named_team(old(self)@, name@) is Some,
        ensures
            t@ == old(self)@.teams[named_team(old(self)@, name@)->0],
            final(self)@ == (WorldView {
                teams: old(self)@.teams.insert(
                    named_team(old(self)@, name@)->0,
                    final(t)@,
                ),
                ..old(self)@
            }),
    {
        let id = self.find_team(&name).unwrap();
        proof {
            lemma_named_team_is_named(self@, name@);
        }
        self.team_mut(id)
    }

    /// Takes the badges of lifetime `lifetime` off every player.
    pub fn clear_lifetime(&mut self, lifetime: ModLifetime)
        ensures
            final(self)@ == (WorldView {
                players: players_without_lifetime(old(self)@.players, lifetime),
                ..old(self)@
            }),
    {
        let ids = self.player_ids();
        let mut i: usize = 0;
        while i < ids.len()
            invariant
                i <= ids.len(),
                ids@.to_set() == old(self)@.players.dom(),
                ids@.no_duplicates(),
                self@.players.dom() == old(self)@.players.dom(),
                self@.teams == old(self)@.teams,
                self@.hall == old(self)@.hall,
                self@.season_ruleset == old(self)@.season_ruleset,
                forall|j: int|
                    0 <= j < i ==> self@.players[#[trigger] ids@[j]] == player_without_lifetime(
                        old(self)@.players[ids@[j]],
                        lifetime,
                    ),
                forall|j: int|
                    i <= j < ids.len() ==> self@.players[#[trigger] ids@[j]] == old(
                        self,
                    )@.players[ids@[j]],
            decreases ids.len() - i,
        {
            let id = ids[i];
            assert(ids@.to_set().contains(ids@[i as int]));
            let ghost before = self@;
            let p = self.player_mut(id);
            p.mods.clear_lifetime(lifetime);
            assert(self@.players.dom() =~= before.players.dom());
            i += 1;
        }
        assert(self@.players =~= players_without_lifetime(old(self)@.players, lifetime)) by {
            assert forall|k: u128| self@.players.contains_key(k) implies #[trigger] self@.players[k]
                == player_without_lifetime(old(self)@.players[k], lifetime) by {
                assert(ids@.to_set().contains(k));
                let j = choose|j: int| 0 <= j < ids@.len() && ids@[j] == k;
                assert(self@.players[ids@[j]] == player_without_lifetime(
                    old(self)@.players[ids@[j]],
                    lifetime,
                ));
            }
        }
    }

    /// Takes off every player the badges that last for one game.
    pub fn clear_game(&mut self)
        ensures
            final(self)@ == (WorldView {
                players: players_without_lifetime(old(self)@.players, ModLifetime::Game),
                ..old(self)@
            }),
    {
        self.clear_lifetime(ModLifetime::Game);
    }

    /// Takes off every player the badges that last for one week.
    pub fn clear_weekly(&mut self)
        ensures
            final(self)@ == (WorldView {
                players: players_without_lifetime(old(self)@.players, ModLifetime::Week),
                ..old(self)@
            }),
    {
        self.clear_lifetime(ModLifetime::Week);
    }

    /// Takes off every player the badges that last for one season.
    pub fn clear_season(&mut self)
        ensures
            final(self)@ == (WorldView {
                players: players_without_lifetime(old(self)@.players, ModLifetime::Season),
                ..old(self)@
            }),
    {
        self.clear_lifetime(ModLifetime::Season);
    }

    /// Makes `count` new players for a team and appends their identities to
    /// `roster`.
    fn gen_roster(&mut self, rng: &mut Rng, team: u128, count: usize, roster: &mut Vec<u128>)
        ensures
            final(roster)@.len() == old(roster)@.len() + count,
            final(roster)@.take(old(roster)@.len() as int) == old(roster)@,
            final(rng)@ == skip(old(rng)@, (34 * count) as nat),
            final(self)@ == (WorldView {
                players: with_generated(
                    old(self)@.players,
                    final(roster)@.skip(old(roster)@.len() as int),
                    team,
                    old(rng)@,
                ),
                ..old(self)@
            }),
    {
        let mut k: usize = 0;
        assert(roster@.skip(old(roster)@.len() as int) =~= Seq::<u128>::empty());
        while k < count
            invariant
                k <= count,
                roster@.len() == old(roster)@.len() + k,
                roster@.take(old(roster)@.len() as int) == old(roster)@,
                rng@ == skip(old(rng)@, (34 * k) as nat),
                self@ == (WorldView {
                    players: with_generated(
                        old(self)@.players,
                        roster@.skip(old(roster)@.len() as int),
                        team,
                        old(rng)@,
                    ),
                    ..old(self)@
                }),
            decreases count - k,
        {
            let ghost made = roster@.skip(old(roster)@.len() as int);
            let id = self.gen_player(rng, team);
            roster.push(id);
            proof {
                let now = roster@.skip(old(roster)@.len() as int);
                assert(now =~= made.push(id));
                assert(now.drop_last() =~= made);
                crate::rng::lemma_skip_add(old(rng)@, (34 * k) as nat, 34);
                assert(roster@.take(old(roster)@.len() as int) =~= old(roster)@);
            }
            k += 1;
        }
    }

    /// Makes a new team with a fresh random identity and 25 new players:
    /// nine batters, five pitchers and eleven shadows, in that order.
    pub fn gen_team(&mut self, rng: &mut Rng, name: String, emoji: String) -> (id: u128)
        ensures
            final(rng)@ == skip(old(rng)@, 850),
            final(self)@.teams.contains_key(id),
            ({
                let t = final(self)@.teams[id];
                &&& t == (TeamView {
                    id,
                    name: name@,
                    emoji: emoji@,
                    lineup: t.lineup,
                    rotation: t.rotation,
                    shadows: t.shadows,
                    wins: 0,
                    losses: 0,
                    postseason_wins: 0,
                    postseason_losses: 0,
                    partying: false,
                    fate: 100,
                    mods: Seq::empty(),
                })
                &&& t.lineup.len() == 9
                &&& t.rotation.len() == 5
                &&& t.shadows.len() == 11
                &&& final(self)@ == (WorldView {
                    players: with_generated(
                        old(self)@.players,
                        t.lineup + t.rotation + t.shadows,
                        id,
                        old(rng)@,
                    ),
                    teams: old(self)@.teams.insert(id, t),
                    ..old(self)@
                })
            }),
    {
        let id = fresh_id();
        let mut lineup: Vec<u128> = Vec::new();
        let mut rotation: Vec<u128> = Vec::new();
        let mut shadows: Vec<u128> = Vec::new();
        let ghost s0 = rng@;
        let ghost w0 = self@;
        self.gen_roster(rng, id, 9, &mut lineup);
        let ghost s1 = rng@;
        let ghost w1 = self@;
        assert(lineup@.skip(0) =~= lineup@);
        assert(s1 == skip(s0, 306));
        assert(w1.players == with_generated(w0.players, lineup@, id, s0));
        self.gen_roster(rng, id, 5, &mut rotation);
        let ghost s2 = rng@;
        let ghost w2 = self@;
        assert(rotation@.skip(0) =~= rotation@);
        assert(s2 == skip(s1, 170));
        assert(w2.players == with_generated(w1.players, rotation@, id, s1));
        self.gen_roster(rng, id, 11, &mut shadows);
        let ghost s3 = rng@;
        let ghost w3 = self@;
        assert(shadows@.skip(0) =~= shadows@);
        assert(s3 == skip(s2, 374));
        assert(w3.players == with_generated(w2.players, shadows@, id, s2));
        proof {
            crate::rng::lemma_skip_add(s0, 306, 170);
            assert(s2 == skip(s0, 476));
            crate::rng::lemma_skip_add(s0, 476, 374);
            assert(s3 == skip(s0, 850));
            lemma_with_generated_append(w0.players, lineup@, rotation@, id, s0);
            assert(w2.players == with_generated(w0.players, lineup@ + rotation@, id, s0));
            lemma_with_generated_append(w0.players, lineup@ + rotation@, shadows@, id, s0);
            assert(w3.players == with_generated(
                w0.players,
                lineup@ + rotation@ + shadows@,
                id,
                s0,
            ));
            assert(w3.teams == w0.teams);
            assert(w3.hall == w0.hall);
        }
        let team = Team {
            id,
            emoji,
            lineup,
            rotation,
            shadows,
            name,
            wins: 0,
            losses: 0,
            postseason_wins: 0,
            postseason_losses: 0,
            partying: false,
            fate: 100,
            mods: Mods::new(),
        };
        self.insert_team(team);
        id
    }
}

/// Whether the world has a team `id` of the name `name`.
pub open spec fn is_named(w: WorldView, name: Seq<char>, id: u128) -> bool {
    w.teams.contains_key(id) && w.teams[id].name == name
}

/// The least identity of a team of the name `name`, if there is such a
/// team.
pub open spec fn named_team(w: WorldView, name: Seq<char>) -> Option<u128> {
    if exists|id: u128| is_named(w, name, id) {
        Some(
            choose|id: u128|
                is_named(w, name, id) && forall|k: u128| is_named(w, name, k) ==> id <= k,
        )
    } else {
        None
    }
}

/// A team of the name below whose identity no other team of the name has
/// its own is the named team.
pub proof fn lemma_named_team(w: WorldView, name: Seq<char>, id: u128)
    requires
        is_named(w, name, id),
        forall|k: u128| is_named(w, name, k) ==> id <= k,
    ensures
        named_team(w, name) == Some(id),
{
    let c = choose|c: u128|
        is_named(w, name, c) && forall|k: u128| is_named(w, name, k) ==> c <= k;
    assert(is_named(w, name, c) && forall|k: u128| is_named(w, name, k) ==> c <= k);
    assert(c <= id && id <= c);
}

/// The named team has the name.
pub proof fn lemma_named_team_is_named(w: WorldView, name: Seq<char>)
    requires
        named_team(w, name) is Some,
    ensures
        is_named(w, name, named_team(w, name)->0),
{
    let witness = choose|id: u128| is_named(w, name, id);
    lemma_least_named(w, name, witness);
}

/// Among the teams of a name one has the least identity.
pub proof fn lemma_least_named(w: WorldView, name: Seq<char>, id: u128)
    requires
        is_named(w, name, id),
    ensures
        exists|c: u128| is_named(w, name, c) && forall|k: u128| is_named(w, name, k) ==> c <= k,
    decreases id,
{
    if exists|k: u128| is_named(w, name, k) && k < id {
        let k = choose|k: u128| is_named(w, name, k) && k < id;
        lemma_least_named(w, name, k);
    } else {
        assert(is_named(w, name, id) && forall|k: u128| is_named(w, name, k) ==> id <= k);
    }
}

/// The players of `m` with the badges of lifetime `lifetime` taken off.
pub open spec fn players_without_lifetime(
    m: Map<u128, PlayerView>,
    lifetime: ModLifetime,
) -> Map<u128, PlayerView> {
    m.map_values(|p: PlayerView| player_without_lifetime(p, lifetime))
}

/// The players `m` after one player was generated for `team` under each
/// identity of `ids`, in order, by a generator that starts in state `s` and
/// takes 34 steps for each.  A later player takes the place of an earlier
/// one who has the same identity.
pub open spec fn with_generated(
    m: Map<u128, PlayerView>,
    ids: Seq<u128>,
    team: u128,
    s: RngState,
) -> Map<u128, PlayerView>
    decreases ids.len(),
{
    if ids.len() == 0 {
        m
    } else {
        with_generated(m, ids.drop_last(), team, s).insert(
            ids.last(),
            PlayerView {
                name: generated_name(ids.last()),
                team: Some(team),
                ..rolled_player(ids.last(), skip(s, (34 * (ids.len() - 1)) as nat))
            },
        )
    }
}

/// Generating for `a` and then for `b`, with the generator where the first
/// run left it, is generating for `a + b`.
pub proof fn lemma_with_generated_append(
    m: Map<u128, PlayerView>,
    a: Seq<u128>,
    b: Seq<u128>,
    team: u128,
    s: RngState,
)
    ensures
        with_generated(with_generated(m, a, team, s), b, team, skip(s, (34 * a.len()) as nat))
            == with_generated(m, a + b, team, s),
    decreases b.len(),
{
    if b.len() == 0 {
        assert(a + b =~= a);
    } else {
        lemma_with_generated_append(m, a, b.drop_last(), team, s);
        assert((a + b).drop_last() =~= a + b.drop_last());
        assert((a + b).last() == b.last());
        crate::rng::lemma_skip_add(s, (34 * a.len()) as nat, (34 * (b.len() - 1)) as nat);
        assert(34 * a.len() + 34 * (b.len() - 1) == 34 * ((a + b).len() - 1));
    }
}

} // verus!
