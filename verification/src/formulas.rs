//! Thresholds, chances and the whole-number tables of the formulas.
//!
//! A threshold is a point of the unit interval with which a draw is
//! compared.  It is held as two counts of draws, so that both comparisons
//! are exact whatever the point: how many draws lie strictly below it, and
//! how many lie at or below it.

use vstd::prelude::*;
use crate::entities::{LegendaryItem, PlayerAttr};
use crate::game::{MultiplierData, Weather};
use crate::mods::{Mod, Mods, ModWithLifetime, seq_has_mod};

verus! {

/// A point of the unit interval, as seen from the draws.
#[derive(Debug, Clone, Copy, PartialEq, Eq, Structural)]
pub struct Threshold {
    /// The number of draws strictly below the point.
    pub lt: u64,
    /// The number of draws at or below the point.
    pub le: u64,
}

impl Threshold {
    /// Whether the draw `roll` lies strictly below the point.
    pub open spec fn exceeds(self, roll: u64) -> bool {
        roll < self.lt
    }

    /// Whether the draw `roll` lies strictly above the point.
    pub open spec fn exceeded_by(self, roll: u64) -> bool {
        roll >= self.le
    }

    /// Whether the draw `roll` lies strictly below the point.
    pub fn is_above(&self, roll: u64) -> (b: bool)
        ensures
            b == self.exceeds(roll),
    {
        roll < self.lt
    }

    /// Whether the draw `roll` lies strictly above the point.
    pub fn is_below(&self, roll: u64) -> (b: bool)
        ensures
            b == self.exceeded_by(roll),
    {
        roll >= self.le
    }
}

/// The chance that a reverberating batter bats again: the draws below 0.2.
pub const REVERBERATING_CHANCE: u64 = 900_719_925_474_100;

/// The chance per tick that an unstable player is incinerated under an
/// eclipse: the draws below 0.002.
pub const UNSTABLE_INCINERATION_CHANCE: u64 = 9_007_199_254_741;

/// The chance per tick of an incineration under an eclipse: the draws
/// below 0.00045.
pub const INCINERATION_CHANCE: u64 = 2_026_619_832_317;

/// The chance per tick of an allergic reaction under peanut weather: the
/// draws below 0.0006.
pub const PEANUT_CHANCE: u64 = 2_702_159_776_423;

/// The chance per tick that the birds are seen: the draws below 0.003.
pub const BIRDS_CHANCE: u64 = 13_510_798_882_112;

/// The chance per tick and shelled player that the birds peck the player
/// free: the draws below 0.00015.
pub const PECKED_FREE_CHANCE: u64 = 675_539_944_106;

/// The chance that feedback looks at the batter and not at the pitcher:
/// the draws below 9/14.
pub const FEEDBACK_BATTER_CHANCE: u64 = 2_895_171_189_023_891;

/// The chance per tick of feedback on a flickering player: the draws below
/// 0.02.
pub const FLICKERING_FEEDBACK_CHANCE: u64 = 90_071_992_547_410;

/// The chance per tick of feedback on any player: the draws below 0.0001.
pub const FEEDBACK_CHANCE: u64 = 450_359_962_738;

/// The chance per tick of a reverb: the draws below 0.00003.
pub const REVERB_CHANCE: u64 = 135_107_988_822;

/// A reverb shuffles the whole team on the draws below 0.09.
pub const REVERB_ALL_CUT: u64 = 405_323_966_463_345;

/// A reverb swaps pairs on the draws from there below 0.55.
pub const REVERB_PAIRS_CUT: u64 = 2_476_979_795_053_773;

/// A reverb shuffles the lineup on the draws from there below 0.95, and
/// the rotation on the draws from there.
pub const REVERB_LINEUP_CUT: u64 = 4_278_419_646_001_971;

/// An even chance: the draws below 0.5.
pub const EVEN_CHANCE: u64 = 2_251_799_813_685_248;

/// The chance per tick of a blooddrain: the draws below 0.00065.
pub const BLOODDRAIN_CHANCE: u64 = 2_927_339_757_791;

/// The chance per tick that the polarity switches: the draws below 0.035.
pub const POLARITY_CHANCE: u64 = 157_625_986_957_968;

/// The chance per tick of a night shift: the draws below 0.01.
pub const NIGHT_SHIFT_CHANCE: u64 = 45_035_996_273_705;

/// The chance that the salmon swim back after a half-inning with runs: the
/// draws below 0.1375.
pub const SALMON_CHANCE: u64 = 619_244_948_763_444;

/// The chance that runs are lost when the salmon swim back: the draws
/// below 0.675.
pub const SALMON_RUNS_LOST_CHANCE: u64 = 3_039_929_748_475_085;

/// The chance that both teams lose their runs: the draws below 0.2.
pub const SALMON_BOTH_CHANCE: u64 = 900_719_925_474_100;

/// The chance that an electric player zaps a strike or a ball away: the
/// draws below 0.2.
pub const ZAP_CHANCE: u64 = 900_719_925_474_100;

/// The chance that a pitcher in debt hits the batter: the draws below
/// 0.02.
pub const HIT_BY_PITCH_CHANCE: u64 = 90_071_992_547_410;

/// The chance that a runner who can steal tries to: the draws below 0.05.
pub const STEAL_ATTEMPT_CHANCE: u64 = 225_179_981_368_525;

/// The chance that a steal succeeds: the draws below 0.8.
pub const STEAL_SUCCESS_CHANCE: u64 = 3_602_879_701_896_397;

/// The boost that a shadow gets from a night shift, in attribute units for
/// each step of a draw: a fifth of the draw.
pub const NIGHT_SHIFT_BOOST_PER_DRAW: i64 = 4;

/// What the tangled player loses in a soundproofed feedback, in attribute
/// units for each step of a draw: a twentieth of the draw.
pub const SOUNDPROOF_LOSS_PER_DRAW: i64 = -1;

/// The thresholds of a pitch that depend on one fielder.  The lists have
/// one entry for each runner on base, in the order of the runners.
#[derive(Debug)]
pub struct FielderThresholds {
    /// Against the out roll, which is an out when the draw lies above it.
    pub out: Threshold,
    pub fly: Threshold,
    pub double_play: Threshold,
    pub triple: Threshold,
    pub double: Threshold,
    pub groundout_advance: Vec<Threshold>,
    pub hit_advance: Vec<Threshold>,
}

/// The thresholds of one pitch.  `fielders` has one entry for each place
/// of the lineup of the team in the field, and `flyout_advance` one for
/// each runner on base, in the order of the runners.
#[derive(Debug)]
pub struct PitchThresholds {
    pub strike: Threshold,
    pub swing_strike: Threshold,
    pub swing_ball: Threshold,
    pub contact_strike: Threshold,
    pub contact_ball: Threshold,
    pub foul: Threshold,
    pub home_run: Threshold,
    pub sacrifice: Threshold,
    pub fielders: Vec<FielderThresholds>,
    pub flyout_advance: Vec<Threshold>,
}

/// The thresholds of one fielder, as plain values.
pub struct FielderThresholdsView {
    pub out: Threshold,
    pub fly: Threshold,
    pub double_play: Threshold,
    pub triple: Threshold,
    pub double: Threshold,
    pub groundout_advance: Seq<Threshold>,
    pub hit_advance: Seq<Threshold>,
}

/// The thresholds of one pitch, as plain values.
pub struct PitchThresholdsView {
    pub strike: Threshold,
    pub swing_strike: Threshold,
    pub swing_ball: Threshold,
    pub contact_strike: Threshold,
    pub contact_ball: Threshold,
    pub foul: Threshold,
    pub home_run: Threshold,
    pub sacrifice: Threshold,
    pub fielders: Seq<FielderThresholdsView>,
    pub flyout_advance: Seq<Threshold>,
}

impl View for FielderThresholds {
    type V = FielderThresholdsView;

    open spec fn view(&self) -> FielderThresholdsView {
        FielderThresholdsView {
            out: self.out,
            fly: self.fly,
            double_play: self.double_play,
            triple: self.triple,
            double: self.double,
            groundout_advance: self.groundout_advance@,
            hit_advance: self.hit_advance@,
        }
    }
}

impl View for PitchThresholds {
    type V = PitchThresholdsView;

    open spec fn view(&self) -> PitchThresholdsView {
        PitchThresholdsView {
            strike: self.strike,
            swing_strike: self.swing_strike,
            swing_ball: self.swing_ball,
            contact_strike: self.contact_strike,
            contact_ball: self.contact_ball,
            foul: self.foul,
            home_run: self.home_run,
            sacrifice: self.sacrifice,
            fielders: self.fielders@.map_values(|f: FielderThresholds| f@),
            flyout_advance: self.flyout_advance@,
        }
    }
}

impl PitchThresholdsView {
    /// Whether the lists fit a lineup of `fielders` fielders and `runners`
    /// runners on base.
    pub open spec fn fits(self, fielders: nat, runners: nat) -> bool {
        &&& self.fielders.len() == fielders
        &&& self.flyout_advance.len() == runners
        &&& forall|i: int|
            0 <= i < self.fielders.len() ==> (#[trigger] self.fielders[i]).groundout_advance.len()
                == runners && self.fielders[i].hit_advance.len() == runners
    }
}

impl PitchThresholds {
    /// Whether the lists fit a lineup of `fielders` fielders and `runners`
    /// runners on base.
    pub fn fits(&self, fielders: usize, runners: usize) -> (b: bool)
        ensures
            b == self@.fits(fielders as nat, runners as nat),
    {
        if self.fielders.len() != fielders || self.flyout_advance.len() != runners {
            return false;
        }
        let mut i: usize = 0;
        while i < self.fielders.len()
            invariant
                i <= self.fielders.len(),
                forall|j: int|
                    0 <= j < i ==> (#[trigger] self@.fielders[j]).groundout_advance.len()
                        == runners && self@.fielders[j].hit_advance.len() == runners,
            decreases self.fielders.len() - i,
        {
            if self.fielders[i].groundout_advance.len() != runners
                || self.fielders[i].hit_advance.len() != runners {
                assert(self@.fielders[i as int].groundout_advance.len() != runners
                    || self@.fielders[i as int].hit_advance.len() != runners);
                return false;
            }
            assert(self@.fielders[i as int] == self.fielders@[i as int]@);
            i += 1;
        }
        true
    }
}

/// What a legendary item adds to an attribute of its holder, in
/// thousandths.
pub open spec fn item_bonus(attr: PlayerAttr, item: Option<LegendaryItem>) -> int {
    let a = attr.index();
    let negative = a == 5 || a == 7;
    let batting = a < 8;
    let pitching = 8 <= a < 14;
    let running = 14 <= a < 19;
    let defense = 19 <= a < 24;
    match item {
        None => 0,
        Some(LegendaryItem::DialTone) | Some(LegendaryItem::VibeCheck) | Some(
            LegendaryItem::BangersAndSmash,
        ) => if negative {
            -200
        } else if batting {
            200
        } else {
            0
        },
        Some(LegendaryItem::LiteralArmCannon) => if pitching {
            80
        } else if defense {
            230
        } else {
            0
        },
        Some(LegendaryItem::GrapplingHook) => if defense || running {
            600
        } else {
            0
        },
        Some(LegendaryItem::Mushroom) => if a == 1 || a == 4 {
            600
        } else if a == 25 {
            400
        } else if a == 16 {
            -100
        } else if running {
            -400
        } else {
            0
        },
        Some(LegendaryItem::NightVisionGoggles) => 0,
        Some(LegendaryItem::ShrinkRay) => if a == 3 {
            100
        } else if a == 16 {
            175
        } else if running {
            200
        } else if a == 4 {
            -70
        } else if a == 1 {
            -50
        } else {
            0
        },
        Some(LegendaryItem::TheIffeyJr) => if negative {
            510
        } else if batting || running {
            -510
        } else {
            0
        },
        Some(LegendaryItem::ActualAirplane) => 0,
    }
}

/// What a legendary item adds to an attribute of its holder, in
/// thousandths.
pub fn item(attr: PlayerAttr, held: &Option<LegendaryItem>) -> (bonus: i32)
    ensures
        bonus == item_bonus(attr, *held),
{
    match held {
        None => 0,
        Some(item_type) => match item_type {
            LegendaryItem::DialTone | LegendaryItem::VibeCheck | LegendaryItem::BangersAndSmash => {
                if attr.is_negative() {
                    -200
                } else if attr.is_batting() {
                    200
                } else {
                    0
                }
            },
            LegendaryItem::LiteralArmCannon => {
                if attr.is_pitching() {
                    80
                } else if attr.is_defense() {
                    230
                } else {
                    0
                }
            },
            LegendaryItem::GrapplingHook => {
                if attr.is_defense() || attr.is_running() {
                    600
                } else {
                    0
                }
            },
            LegendaryItem::Mushroom => match attr {
                PlayerAttr::Divinity | PlayerAttr::Musclitude => 600,
                PlayerAttr::Cinnamon => 400,
                PlayerAttr::BaseThirst
                | PlayerAttr::Continuation
                | PlayerAttr::Indulgence
                | PlayerAttr::Laserlikeness => -400,
                PlayerAttr::GroundFriction => -100,
                _ => 0,
            },
            LegendaryItem::NightVisionGoggles => 0,
            LegendaryItem::ShrinkRay => match attr {
                PlayerAttr::Moxie => 100,
                PlayerAttr::BaseThirst
                | PlayerAttr::Continuation
                | PlayerAttr::Indulgence
                | PlayerAttr::Laserlikeness => 200,
                PlayerAttr::GroundFriction => 175,
                PlayerAttr::Musclitude => -70,
                PlayerAttr::Divinity => -50,
                _ => 0,
            },
            LegendaryItem::TheIffeyJr => {
                if attr.is_negative() {
                    510
                } else if attr.is_batting() || attr.is_running() {
                    -510
                } else {
                    0
                }
            },
            LegendaryItem::ActualAirplane => 0,
        },
    }
}

/// A multiplier of an attribute, as the fraction `num / den`.
#[derive(Debug, Clone, Copy, PartialEq, Eq, Structural)]
pub struct Multiplier {
    pub num: u32,
    pub den: u32,
}

/// The unit of the multipliers: a multiplier of 1 is `MULTIPLIER_ONE` parts
/// of `MULTIPLIER_ONE`.  One part is what growth adds for each day.
pub const MULTIPLIER_ONE: u32 = 1980;

/// The parts that the badges `mods` add to the multiplier of `attr`, on
/// the day `day` under the weather `weather`.  Growth adds one part a day
/// up to 99, a twentieth in all.  Without growth, an affinity for crows
/// adds a half to the pitching attributes under the birds; and without
/// growth and the birds, being red hot adds 4 to thwackability and 2 to
/// moxie.  Night vision adds a half to the batting attributes under an
/// eclipse.
pub open spec fn multiplier_parts(
    attr: PlayerAttr,
    mods: Seq<ModWithLifetime>,
    weather: Weather,
    day: int,
) -> int {
    let a = attr.index();
    let first = if seq_has_mod(mods, Mod::Growth) {
        if day < 99 {
            day
        } else {
            99
        }
    } else if weather == Weather::Birds {
        if seq_has_mod(mods, Mod::AffinityForCrows) && 8 <= a < 14 {
            990
        } else {
            0
        }
    } else if seq_has_mod(mods, Mod::RedHot) {
        if a == 6 {
            7920
        } else if a == 3 {
            3960
        } else {
            0
        }
    } else {
        0
    };
    let second = if weather == Weather::Eclipse && seq_has_mod(mods, Mod::NightVision) && a < 8 {
        990
    } else {
        0int
    };
    1980 + first + second
}

/// The multiplier of `attr` for a player with the badges `mods`: one and
/// the parts that the badges add; for patheticism, tragicness and buoyancy
/// the reciprocal of that.
pub open spec fn multiplier_of(
    attr: PlayerAttr,
    mods: Seq<ModWithLifetime>,
    weather: Weather,
    day: int,
) -> Multiplier {
    let parts = multiplier_parts(attr, mods, weather, day) as u32;
    if attr.index() == 5 || attr.index() == 7 || attr.index() == 0 {
        Multiplier { num: MULTIPLIER_ONE, den: parts }
    } else {
        Multiplier { num: parts, den: MULTIPLIER_ONE }
    }
}

/// The multiplier of `attr` for a player with the badges `mods`.
pub fn multiplier(attr: PlayerAttr, mods: &Mods, data: &MultiplierData) -> (m: Multiplier)
    ensures
        m == multiplier_of(attr, mods@, data.weather, data.day as int),
        m.num > 0,
        m.den > 0,
{
    let mut parts: u32 = MULTIPLIER_ONE;
    if mods.has(Mod::Growth) {
        parts += if data.day < 99 {
            data.day as u32
        } else {
            99
        };
    } else if data.weather == Weather::Birds {
        if mods.has(Mod::AffinityForCrows) && attr.is_pitching() {
            parts += 990;
        }
    } else if mods.has(Mod::RedHot) {
        match attr {
            PlayerAttr::Thwackability => {
                parts += 7920;
            },
            PlayerAttr::Moxie => {
                parts += 3960;
            },
            _ => {},
        }
    }
    if data.weather == Weather::Eclipse {
        if mods.has(Mod::NightVision) && attr.is_batting() {
            parts += 990;
        }
    }
    if attr.is_negative() {
        Multiplier { num: MULTIPLIER_ONE, den: parts }
    } else {
        match attr {
            PlayerAttr::Buoyancy => Multiplier { num: MULTIPLIER_ONE, den: parts },
            _ => Multiplier { num: parts, den: MULTIPLIER_ONE },
        }
    }
}

} // verus!
