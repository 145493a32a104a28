//! The tick: the phases that look at a game in a fixed order, the first of
//! which to speak gives the event of the tick.
//!
//! A phase takes its draws from the generator one after the other.  What a
//! phase gives is stated over the state in which it finds the generator:
//! `roll(s)` is the next draw and `step_state(s)` the state after it.

use vstd::prelude::*;
use vstd::string::StringExecFns;
use crate::bases::{
    advance_each, advance_if_from, Baserunner, Baserunners, bases_below, fielders_choice_base,
    first_on, occupied_in,
};
use crate::entities::{World, WorldView};
use crate::events::{Event, EventView, inning_switch_tag, removed_first, same_event};
use crate::formulas::{
    EVEN_CHANCE, HIT_BY_PITCH_CHANCE, PitchThresholds, PitchThresholdsView, REVERBERATING_CHANCE,
    SALMON_BOTH_CHANCE, SALMON_CHANCE, SALMON_RUNS_LOST_CHANCE, STEAL_ATTEMPT_CHANCE,
    STEAL_SUCCESS_CHANCE, Threshold, ZAP_CHANCE,
};
use crate::game::{batter_known, Game, GameView, max_balls, max_strikes, Weather};
use crate::mods::{Mod, seq_has_mod};
use crate::rng::{draw_index, draw_of, pick_index, Rng, RngState, step_state};

verus! {

/// The next draw of a generator in the state `s`.
pub open spec fn roll(s: RngState) -> u64 {
    draw_of(step_state(s))
}

/// What the first phase gives: nothing before the third out; after it the
/// end of the game, if nine innings are played and the home team leads or
/// the away team leads after the bottom half; else the switch to the next
/// half-inning.
pub open spec fn inning_state_event(g: GameView) -> Option<EventView> {
    let away = g.scoreboard.away_team.score;
    let home = g.scoreboard.home_team.score;
    if g.outs < 3 {
        None
    } else if g.inning >= 9 && (home > away || (!g.scoreboard.top && away > home)) {
        Some(EventView::GameOver)
    } else if g.scoreboard.top {
        Some(EventView::InningSwitch { inning: g.inning, top: false })
    } else {
        Some(EventView::InningSwitch { inning: (g.inning + 1) as i16, top: true })
    }
}

/// Whether a half-inning has just begun: the newest tag of the feed is the
/// switch.
pub open spec fn just_switched(g: GameView) -> bool {
    g.events.len() > 0 && g.events.last() == inning_switch_tag()
}

/// What the salmon phase gives, and the state in which it leaves the
/// generator.  Under salmon weather, when a half-inning has just begun and
/// a team scored in the half before, one draw decides whether the salmon
/// swim back; a second whether runs are lost; and if both teams scored, a
/// third whether both lose theirs and, if not, a fourth which of them does.
pub open spec fn extra_weather_event(g: GameView, s: RngState) -> (Option<EventView>, RngState) {
    let away_scored = g.linescore_away.last() != 0;
    let home_scored = g.scoreboard.top && g.linescore_home.last() != 0;
    let s1 = step_state(s);
    let s2 = step_state(s1);
    let s3 = step_state(s2);
    let s4 = step_state(s3);
    if g.weather != Weather::Salmon || !just_switched(g) || !(away_scored || home_scored) {
        (None, s)
    } else if roll(s) >= SALMON_CHANCE {
        (None, s1)
    } else if roll(s1) >= SALMON_RUNS_LOST_CHANCE {
        (Some(EventView::Salmon { home_runs_lost: false, away_runs_lost: false }), s2)
    } else if away_scored && home_scored {
        if roll(s2) < SALMON_BOTH_CHANCE {
            (Some(EventView::Salmon { home_runs_lost: true, away_runs_lost: true }), s3)
        } else {
            (
                Some(
                    EventView::Salmon {
                        home_runs_lost: roll(s3) < EVEN_CHANCE,
                        away_runs_lost: !(roll(s3) < EVEN_CHANCE),
                    },
                ),
                s4,
            )
        }
    } else {
        (Some(EventView::Salmon { home_runs_lost: !away_scored, away_runs_lost: away_scored }), s2)
    }
}

/// Whether the batter to come is the first of the game for the team.
pub open spec fn first_batter(g: GameView) -> bool {
    g.events.len() == 0 || (g.scoreboard.batting().batter_index == 0 && g.inning == 1
        && just_switched(g))
}

/// What the batter phase gives, and the state in which it leaves the
/// generator.  With a batter at the plate it gives nothing.  Else the
/// batter before, if reverberating, bats again on one draw in five, unless
/// the half-inning has just begun; else the batter whose turn it is comes
/// up, or is passed over if shelled.
pub open spec fn batter_state_event(g: GameView, w: WorldView, s: RngState) -> (
    Option<EventView>,
    RngState,
) {
    let bt = g.scoreboard.batting();
    let lineup = w.teams[bt.id].lineup;
    let idx = bt.batter_index as int;
    let prev = if first_batter(g) {
        lineup[0]
    } else {
        lineup[(idx - 1) % lineup.len() as int]
    };
    let again = !first_batter(g) && !just_switched(g) && seq_has_mod(
        w.players[prev].mods,
        Mod::Reverberating,
    );
    let s1 = if again {
        step_state(s)
    } else {
        s
    };
    let batter = lineup[idx % lineup.len() as int];
    if bt.batter is Some {
        (None, s)
    } else if again && roll(s) < REVERBERATING_CHANCE {
        (Some(EventView::BatterUp { batter: prev, reverberating: true }), s1)
    } else if seq_has_mod(w.players[batter].mods, Mod::Shelled) {
        (Some(EventView::Shelled { batter }), s1)
    } else {
        (Some(EventView::BatterUp { batter, reverberating: false }), s1)
    }
}

/// What has to hold for the batter phase: the team at bat is known and has
/// a lineup, whose players the world knows, and the place of the batter
/// before can be counted back.
pub open spec fn can_pick_batter(g: GameView, w: WorldView) -> bool {
    let bt = g.scoreboard.batting();
    let lineup = w.teams[bt.id].lineup;
    bt.batter is None ==> {
        &&& w.teams.contains_key(bt.id)
        &&& lineup.len() > 0
        &&& !first_batter(g) ==> bt.batter_index > 0
        &&& forall|i: int| 0 <= i < lineup.len() ==> w.players.contains_key(#[trigger] lineup[i])
    }
}

/// What the modifier phase gives, and the state in which it leaves the
/// generator.  Each of four chances is tried in turn, and takes a draw
/// only if its conditions hold: an electric batter zaps a strike away; an
/// electric pitcher zaps a ball away; a pitcher in debt hits a batter who
/// is not unstable; a pitcher in refinanced debt hits a batter who is not
/// flickering.
pub open spec fn modifier_event(g: GameView, w: WorldView, s: RngState) -> (
    Option<EventView>,
    RngState,
) {
    let batter = g.scoreboard.batting().batter->0;
    let bm = w.players[batter].mods;
    let pm = w.players[g.scoreboard.fielding().pitcher].mods;
    let try1 = seq_has_mod(bm, Mod::Electric) && g.strikes > 0;
    let s1 = if try1 {
        step_state(s)
    } else {
        s
    };
    let try2 = seq_has_mod(pm, Mod::Electric) && g.balls > 0;
    let s2 = if try2 {
        step_state(s1)
    } else {
        s1
    };
    let try3 = seq_has_mod(pm, Mod::DebtU) && !seq_has_mod(bm, Mod::Unstable);
    let s3 = if try3 {
        step_state(s2)
    } else {
        s2
    };
    let try4 = seq_has_mod(pm, Mod::RefinancedDebt) && !seq_has_mod(bm, Mod::Flickering);
    let s4 = if try4 {
        step_state(s3)
    } else {
        s3
    };
    if try1 && roll(s) < ZAP_CHANCE {
        (Some(EventView::Zap { batter: true }), s1)
    } else if try2 && roll(s1) < ZAP_CHANCE {
        (Some(EventView::Zap { batter: false }), s2)
    } else if try3 && roll(s2) < HIT_BY_PITCH_CHANCE {
        (Some(EventView::HitByPitch { target: batter, hbp_type: 0 }), s3)
    } else if try4 && roll(s3) < HIT_BY_PITCH_CHANCE {
        (Some(EventView::HitByPitch { target: batter, hbp_type: 1 }), s4)
    } else {
        (None, s4)
    }
}

/// Whether the batter and the pitcher are set and known to the world.
pub open spec fn battery_known(g: GameView, w: WorldView) -> bool {
    &&& g.scoreboard.batting().batter is Some
    &&& w.players.contains_key(g.scoreboard.batting().batter->0)
    &&& w.players.contains_key(g.scoreboard.fielding().pitcher)
}

/// What the steal phase gives for the bases below `base`, looked at from
/// the highest down, and the state in which it leaves the generator.  The
/// runner of each occupied base whose next base is free takes a draw, and
/// tries to steal on one draw in twenty; a second draw then decides
/// between the steal and the out.
pub open spec fn steal_event_below(g: GameView, s: RngState, base: nat) -> (
    Option<EventView>,
    RngState,
)
    decreases base,
{
    if base == 0 {
        (None, s)
    } else {
        let b = (base - 1) as u8;
        if occupied_in(g.runners, b as int) && !occupied_in(g.runners, b + 1) {
            let runner = g.runners[first_on(g.runners, b as int)].id;
            if roll(s) < STEAL_ATTEMPT_CHANCE {
                if roll(step_state(s)) < STEAL_SUCCESS_CHANCE {
                    (
                        Some(
                            EventView::BaseSteal { runner, base_from: b, base_to: (b + 1) as u8 },
                        ),
                        step_state(step_state(s)),
                    )
                } else {
                    (
                        Some(EventView::CaughtStealing { runner, base_from: b }),
                        step_state(step_state(s)),
                    )
                }
            } else {
                steal_event_below(g, step_state(s), (base - 1) as nat)
            }
        } else {
            steal_event_below(g, s, (base - 1) as nat)
        }
    }
}

/// What the steal phase gives, and the state in which it leaves the
/// generator.  Its first draw selects a fielder, of whom nothing further
/// depends; bases 3 to 0 are then looked at.
pub open spec fn stealing_event(g: GameView, s: RngState) -> (Option<EventView>, RngState) {
    steal_event_below(g, step_state(s), 4)
}

/// The first phase: the end of a half-inning or of the game.
pub fn inning_state(game: &Game) -> (r: Option<Event>)
    requires
        game@.inning < i16::MAX,
    ensures
        same_event(r, inning_state_event(game@)),
{
    if game.outs < 3 {
        return None;
    }
    let away = game.scoreboard.away_team.score;
    let home = game.scoreboard.home_team.score;
    if game.inning >= 9 && (home > away || (!game.scoreboard.top && away > home)) {
        return Some(Event::GameOver);
    }
    if game.scoreboard.top {
        Some(Event::InningSwitch { inning: game.inning, top: false })
    } else {
        Some(Event::InningSwitch { inning: game.inning + 1, top: true })
    }
}

/// Whether the newest tag of the feed of the game is the switch.
pub fn has_just_switched(game: &Game) -> (b: bool)
    ensures
        b == just_switched(game@),
{
    if game.events.len() == 0 {
        return false;
    }
    let switch = String::from_str("inningSwitch");
    *game.events.last() == switch
}

/// The salmon phase.
pub fn extra_weather(game: &Game, rng: &mut Rng) -> (r: Option<Event>)
    requires
        game@.weather == Weather::Salmon ==> game@.linescore_away.len() > 0
            && game@.linescore_home.len() > 0,
    ensures
        same_event(r, extra_weather_event(game@, old(rng)@).0),
        final(rng)@ == extra_weather_event(game@, old(rng)@).1,
{
    match game.weather {
        Weather::Salmon => {},
        _ => {
            return None;
        },
    }
    let away_team_scored = game.linescore_away[game.linescore_away.len() - 1] != 0;
    let home_team_scored = game.scoreboard.top && game.linescore_home[game.linescore_home.len()
        - 1] != 0;
    if !has_just_switched(game) || !(away_team_scored || home_team_scored) {
        return None;
    }
    if !(rng.next() < SALMON_CHANCE) {
        return None;
    }
    if !(rng.next() < SALMON_RUNS_LOST_CHANCE) {
        return Some(Event::Salmon { away_runs_lost: false, home_runs_lost: false });
    }
    if away_team_scored && home_team_scored {
        if rng.next() < SALMON_BOTH_CHANCE {
            return Some(Event::Salmon { away_runs_lost: true, home_runs_lost: true });
        }
        let home_runs_lost = rng.next() < EVEN_CHANCE;
        return Some(Event::Salmon { away_runs_lost: !home_runs_lost, home_runs_lost });
    }
    if away_team_scored {
        return Some(Event::Salmon { away_runs_lost: true, home_runs_lost: false });
    }
    Some(Event::Salmon { away_runs_lost: false, home_runs_lost: true })
}

/// The batter phase.
pub fn batter_state(game: &Game, world: &World, rng: &mut Rng) -> (r: Option<Event>)
    requires
        can_pick_batter(game@, world@),
    ensures
        same_event(r, batter_state_event(game@, world@, old(rng)@).0),
        final(rng)@ == batter_state_event(game@, world@, old(rng)@).1,
{
    let batting_team = game.scoreboard.batting_team();
    if batting_team.batter.is_some() {
        return None;
    }
    let idx = batting_team.batter_index;
    let team = world.team(batting_team.id);
    let switched = has_just_switched(game);
    let first = game.events.len() == 0 || (idx == 0 && game.inning == 1 && switched);
    let inning_begin = !first && switched;
    let prev = if first {
        team.lineup[0]
    } else {
        team.lineup[(idx - 1) % team.lineup.len()]
    };
    if !first && !inning_begin && world.player(prev).mods.has(Mod::Reverberating) {
        if rng.next() < REVERBERATING_CHANCE {
            return Some(Event::BatterUp { batter: prev, reverberating: true });
        }
    }
    let batter = team.lineup[idx % team.lineup.len()];
    if world.player(batter).mods.has(Mod::Shelled) {
        return Some(Event::Shelled { batter });
    }
    Some(Event::BatterUp { batter, reverberating: false })
}

/// The modifier phase.
pub fn modifier(game: &Game, world: &World, rng: &mut Rng) -> (r: Option<Event>)
    requires
        battery_known(game@, world@),
    ensures
        same_event(r, modifier_event(game@, world@, old(rng)@).0),
        final(rng)@ == modifier_event(game@, world@, old(rng)@).1,
{
    let batter = game.scoreboard.batting_team().batter.unwrap();
    let batter_mods = &world.player(batter).mods;
    let pitcher = game.scoreboard.pitching_team().pitcher;
    let pitcher_mods = &world.player(pitcher).mods;
    if batter_mods.has(Mod::Electric) && game.strikes > 0 {
        if rng.next() < ZAP_CHANCE {
            return Some(Event::Zap { batter: true });
        }
    }
    if pitcher_mods.has(Mod::Electric) && game.balls > 0 {
        if rng.next() < ZAP_CHANCE {
            return Some(Event::Zap { batter: false });
        }
    }
    if pitcher_mods.has(Mod::DebtU) && !batter_mods.has(Mod::Unstable) {
        if rng.next() < HIT_BY_PITCH_CHANCE {
            return Some(Event::HitByPitch { target: batter, hbp_type: 0 });
        }
    }
    if pitcher_mods.has(Mod::RefinancedDebt) && !batter_mods.has(Mod::Flickering) {
        if rng.next() < HIT_BY_PITCH_CHANCE {
            return Some(Event::HitByPitch { target: batter, hbp_type: 1 });
        }
    }
    None
}

/// The steal phase.
pub fn stealing(game: &Game, rng: &mut Rng) -> (r: Option<Event>)
    ensures
        same_event(r, stealing_event(game@, old(rng)@).0),
        final(rng)@ == stealing_event(game@, old(rng)@).1,
{
    let _ = rng.next();
    let mut base: u8 = 4;
    while base > 0
        invariant
            base <= 4,
            stealing_event(game@, old(rng)@) == steal_event_below(game@, rng@, base as nat),
        decreases base,
    {
        base -= 1;
        match game.runners.at(base) {
            Some(runner_id) => {
                if game.runners.can_advance(base) {
                    if rng.next() < STEAL_ATTEMPT_CHANCE {
                        if rng.next() < STEAL_SUCCESS_CHANCE {
                            return Some(
                                Event::BaseSteal {
                                    runner: runner_id,
                                    base_from: base,
                                    base_to: base + 1,
                                },
                            );
                        } else {
                            return Some(
                                Event::CaughtStealing { runner: runner_id, base_from: base },
                            );
                        }
                    }
                }
            },
            None => {},
        }
    }
    None
}

/// How a pitch ends, before the count is looked at.
#[derive(Debug)]
pub enum PitchOutcome {
    Ball,
    StrikeSwinging,
    StrikeLooking,
    Foul,
    GroundOut { fielder: u128, advancing_runners: Vec<u128> },
    Flyout { fielder: u128, advancing_runners: Vec<u128> },
    DoublePlay { runner_out: u8 },
    FieldersChoice { runner_out: u8 },
    HomeRun,
    Triple { advancing_runners: Vec<u128> },
    Double { advancing_runners: Vec<u128> },
    Single { advancing_runners: Vec<u128> },
}

/// How a pitch ends, as plain values.
pub enum PitchOutcomeView {
    Ball,
    StrikeSwinging,
    StrikeLooking,
    Foul,
    GroundOut { fielder: u128, advancing_runners: Seq<u128> },
    Flyout { fielder: u128, advancing_runners: Seq<u128> },
    DoublePlay { runner_out: u8 },
    FieldersChoice { runner_out: u8 },
    HomeRun,
    Triple { advancing_runners: Seq<u128> },
    Double { advancing_runners: Seq<u128> },
    Single { advancing_runners: Seq<u128> },
}

impl View for PitchOutcome {
    type V = PitchOutcomeView;

    open spec fn view(&self) -> PitchOutcomeView {
        match *self {
            PitchOutcome::Ball => PitchOutcomeView::Ball,
            PitchOutcome::StrikeSwinging => PitchOutcomeView::StrikeSwinging,
            PitchOutcome::StrikeLooking => PitchOutcomeView::StrikeLooking,
            PitchOutcome::Foul => PitchOutcomeView::Foul,
            PitchOutcome::GroundOut { fielder, advancing_runners } => PitchOutcomeView::GroundOut {
                fielder,
                advancing_runners: advancing_runners@,
            },
            PitchOutcome::Flyout { fielder, advancing_runners } => PitchOutcomeView::Flyout {
                fielder,
                advancing_runners: advancing_runners@,
            },
            PitchOutcome::DoublePlay { runner_out } => PitchOutcomeView::DoublePlay { runner_out },
            PitchOutcome::FieldersChoice { runner_out } => PitchOutcomeView::FieldersChoice {
                runner_out,
            },
            PitchOutcome::HomeRun => PitchOutcomeView::HomeRun,
            PitchOutcome::Triple { advancing_runners } => PitchOutcomeView::Triple {
                advancing_runners: advancing_runners@,
            },
            PitchOutcome::Double { advancing_runners } => PitchOutcomeView::Double {
                advancing_runners: advancing_runners@,
            },
            PitchOutcome::Single { advancing_runners } => PitchOutcomeView::Single {
                advancing_runners: advancing_runners@,
            },
        }
    }
}

/// The runners from position `k` on who get to advance, and the state in
/// which the rolls leave the generator.  Each runner takes one draw, in
/// order, against the runner's own threshold.
pub open spec fn advance_rolls(
    runners: Seq<Baserunner>,
    thresholds: Seq<Threshold>,
    s: RngState,
    k: int,
) -> (Seq<u128>, RngState)
    decreases runners.len() - k,
{
    if k < 0 || k >= runners.len() {
        (Seq::empty(), s)
    } else {
        let rest = advance_rolls(runners, thresholds, step_state(s), k + 1);
        if thresholds[k].exceeds(roll(s)) {
            (seq![runners[k].id] + rest.0, rest.1)
        } else {
            rest
        }
    }
}

/// How a ball in play that is an out ends, from the state `s6` in which
/// the out roll left the generator.  `od` is the place of the fielder whom
/// the out roll was about.
pub open spec fn out_outcome(
    g: GameView,
    w: WorldView,
    t: PitchThresholdsView,
    od: int,
    s6: RngState,
) -> (PitchOutcomeView, RngState) {
    let lineup = w.teams[g.scoreboard.fielding().id].lineup;
    let s7 = step_state(s6);
    let s8 = step_state(s7);
    let s9 = step_state(s8);
    let s10 = step_state(s9);
    let s11 = step_state(s10);
    let fly_fielder = lineup[draw_index(roll(s6), lineup.len()) as int];
    let ground_fielder = lineup[draw_index(roll(s8), lineup.len()) as int];
    if t.fielders[od].fly.exceeds(roll(s7)) {
        let adv = advance_rolls(g.runners, t.flyout_advance, s8, 0);
        (PitchOutcomeView::Flyout { fielder: fly_fielder, advancing_runners: adv.0 }, adv.1)
    } else if g.runners.len() == 0 {
        (
            PitchOutcomeView::GroundOut { fielder: ground_fielder, advancing_runners: Seq::empty() },
            s9,
        )
    } else if !occupied_in(g.runners, 0) {
        let adv = advance_rolls(g.runners, t.fielders[od].groundout_advance, s10, 0);
        (PitchOutcomeView::GroundOut { fielder: ground_fielder, advancing_runners: adv.0 }, adv.1)
    } else if g.outs < 2 && t.fielders[od].double_play.exceeds(roll(s9)) {
        (
            PitchOutcomeView::DoublePlay {
                runner_out: g.runners[draw_index(roll(s10), g.runners.len()) as int].base,
            },
            s11,
        )
    } else if t.sacrifice.exceeds(roll(s10)) {
        let adv = advance_rolls(g.runners, t.fielders[od].groundout_advance, s11, 0);
        (PitchOutcomeView::GroundOut { fielder: ground_fielder, advancing_runners: adv.0 }, adv.1)
    } else {
        (PitchOutcomeView::FieldersChoice { runner_out: fielders_choice_base(g.runners) }, s11)
    }
}

/// How a ball in play that is no out ends, from the state `s6` in which
/// the out roll left the generator.
pub open spec fn hit_outcome(g: GameView, w: WorldView, t: PitchThresholdsView, s6: RngState) -> (
    PitchOutcomeView,
    RngState,
) {
    let lineup = w.teams[g.scoreboard.fielding().id].lineup;
    let s7 = step_state(s6);
    let s8 = step_state(s7);
    let s9 = step_state(s8);
    let s10 = step_state(s9);
    let hd = draw_index(roll(s7), lineup.len()) as int;
    let adv = advance_rolls(g.runners, t.fielders[hd].hit_advance, s10, 0);
    if t.home_run.exceeds(roll(s6)) {
        (PitchOutcomeView::HomeRun, s7)
    } else if t.fielders[hd].triple.exceeds(roll(s9)) {
        (PitchOutcomeView::Triple { advancing_runners: adv.0 }, adv.1)
    } else if t.fielders[hd].double.exceeds(roll(s8)) {
        (PitchOutcomeView::Double { advancing_runners: adv.0 }, adv.1)
    } else {
        (PitchOutcomeView::Single { advancing_runners: adv.0 }, adv.1)
    }
}

/// Whether the batter flinches: a batter with the badge does not swing
/// before the first strike.
pub open spec fn flinching(g: GameView, w: WorldView) -> bool {
    g.strikes == 0 && seq_has_mod(
        w.players[g.scoreboard.batting().batter->0].mods,
        Mod::Flinch,
    )
}

/// How a pitch ends, and the state in which it leaves the generator.  The
/// draws are taken in this order: strike; swing, unless the batter
/// flinches; contact; foul; the fielder of the out roll; the out roll,
/// which is an out when the draw lies above its threshold; then either
/// the draws of an out or those of a hit.
pub open spec fn pitch_outcome(g: GameView, w: WorldView, t: PitchThresholdsView, s: RngState) -> (
    PitchOutcomeView,
    RngState,
) {
    let lineup = w.teams[g.scoreboard.fielding().id].lineup;
    let s1 = step_state(s);
    let is_strike = t.strike.exceeds(roll(s));
    let s2 = if flinching(g, w) {
        s1
    } else {
        step_state(s1)
    };
    let does_swing = !flinching(g, w) && (if is_strike {
        t.swing_strike
    } else {
        t.swing_ball
    }).exceeds(roll(s1));
    let s3 = step_state(s2);
    let s4 = step_state(s3);
    let s5 = step_state(s4);
    let s6 = step_state(s5);
    let od = draw_index(roll(s4), lineup.len()) as int;
    if !does_swing {
        (
            if is_strike {
                PitchOutcomeView::StrikeLooking
            } else {
                PitchOutcomeView::Ball
            },
            s2,
        )
    } else if !(if is_strike {
        t.contact_strike
    } else {
        t.contact_ball
    }).exceeds(roll(s2)) {
        (PitchOutcomeView::StrikeSwinging, s3)
    } else if t.foul.exceeds(roll(s3)) {
        (PitchOutcomeView::Foul, s4)
    } else if t.fielders[od].out.exceeded_by(roll(s5)) {
        out_outcome(g, w, t, od, s6)
    } else {
        hit_outcome(g, w, t, s6)
    }
}

/// What has to hold for a pitch: batter and pitcher are known, the team in
/// the field is known and has a lineup, and the thresholds fit the lineup
/// and the runners.
pub open spec fn can_pitch(g: GameView, w: WorldView, t: PitchThresholdsView) -> bool {
    &&& battery_known(g, w)
    &&& w.teams.contains_key(g.scoreboard.batting().id)
    &&& w.teams.contains_key(g.scoreboard.fielding().id)
    &&& w.teams[g.scoreboard.fielding().id].lineup.len() > 0
    &&& t.fits(w.teams[g.scoreboard.fielding().id].lineup.len(), g.runners.len())
    &&& bases_below(g.runners, 250)
    &&& g.balls < i16::MAX
    &&& g.strikes < i16::MAX
}

/// The event of a pitch that ends as `o`.  A ball is a walk when it is
/// the last ball, and a strike a strikeout when it is the last strike.  On
/// an out in play the runners who get to advance do so if they can; on a
/// double play or a fielder's choice the runner who is out leaves and the
/// others move up one base; on a hit all move up by the bases of the hit,
/// and those who get to advance by one more if they can.
pub open spec fn event_of_outcome(g: GameView, w: WorldView, o: PitchOutcomeView) -> EventView {
    match o {
        PitchOutcomeView::Ball => if g.balls + 1 < max_balls(g, w) {
            EventView::Ball
        } else {
            EventView::Walk
        },
        PitchOutcomeView::StrikeSwinging => if g.strikes + 1 >= max_strikes(g, w) {
            EventView::Strikeout
        } else {
            EventView::Strike
        },
        PitchOutcomeView::StrikeLooking => if g.strikes + 1 >= max_strikes(g, w) {
            EventView::Strikeout
        } else {
            EventView::Strike
        },
        PitchOutcomeView::Foul => EventView::Foul,
        PitchOutcomeView::GroundOut { fielder, advancing_runners } => EventView::GroundOut {
            fielder,
            runners_after: advance_if_from(g.runners, advancing_runners, 0),
        },
        PitchOutcomeView::Flyout { fielder, advancing_runners } => EventView::Flyout {
            fielder,
            runners_after: advance_if_from(g.runners, advancing_runners, 0),
        },
        PitchOutcomeView::DoublePlay { runner_out } => EventView::DoublePlay {
            runners_after: advance_each(removed_first(g.runners, runner_out as int), 1),
        },
        PitchOutcomeView::FieldersChoice { runner_out } => EventView::FieldersChoice {
            runners_after: advance_each(removed_first(g.runners, runner_out as int), 1),
        },
        PitchOutcomeView::HomeRun => EventView::HomeRun,
        PitchOutcomeView::Triple { advancing_runners } => EventView::BaseHit {
            bases: 3,
            runners_after: advance_if_from(advance_each(g.runners, 3), advancing_runners, 0),
        },
        PitchOutcomeView::Double { advancing_runners } => EventView::BaseHit {
            bases: 2,
            runners_after: advance_if_from(advance_each(g.runners, 2), advancing_runners, 0),
        },
        PitchOutcomeView::Single { advancing_runners } => EventView::BaseHit {
            bases: 1,
            runners_after: advance_if_from(advance_each(g.runners, 1), advancing_runners, 0),
        },
    }
}

/// The event of the pitch phase, and the state in which it leaves the
/// generator.
pub open spec fn pitch_event(g: GameView, w: WorldView, t: PitchThresholdsView, s: RngState) -> (
    EventView,
    RngState,
) {
    (event_of_outcome(g, w, pitch_outcome(g, w, t, s).0), pitch_outcome(g, w, t, s).1)
}

/// Rolls for each runner whether the runner gets to advance.
fn roll_advances(game: &Game, thresholds: &Vec<Threshold>, rng: &mut Rng) -> (adv: Vec<u128>)
    requires
        thresholds@.len() == game@.runners.len(),
    ensures
        (adv@, final(rng)@) == advance_rolls(game@.runners, thresholds@, old(rng)@, 0),
{
    let mut adv: Vec<u128> = Vec::new();
    let mut k: usize = 0;
    assert(adv@ + advance_rolls(game@.runners, thresholds@, rng@, 0).0 =~= advance_rolls(
        game@.runners,
        thresholds@,
        rng@,
        0,
    ).0);
    while k < game.runners.runners.len()
        invariant
            k <= game@.runners.len(),
            thresholds@.len() == game@.runners.len(),
            advance_rolls(game@.runners, thresholds@, old(rng)@, 0).0 == adv@ + advance_rolls(
                game@.runners,
                thresholds@,
                rng@,
                k as int,
            ).0,
            advance_rolls(game@.runners, thresholds@, old(rng)@, 0).1 == advance_rolls(
                game@.runners,
                thresholds@,
                rng@,
                k as int,
            ).1,
        decreases game@.runners.len() - k,
    {
        let ghost before = adv@;
        let ghost rest_before = advance_rolls(game@.runners, thresholds@, rng@, k as int).0;
        if thresholds[k].is_above(rng.next()) {
            adv.push(game.runners.runners[k].id);
        }
        assert(before + rest_before =~= adv@ + advance_rolls(
            game@.runners,
            thresholds@,
            rng@,
            k + 1,
        ).0);
        k += 1;
    }
    assert(adv@ + Seq::<u128>::empty() =~= adv@);
    adv
}

/// Resolves one pitch.
pub fn do_pitch(world: &World, game: &Game, rng: &mut Rng, thresholds: &PitchThresholds) -> (o:
    PitchOutcome)
    requires
        can_pitch(game@, world@, thresholds@),
    ensures
        o@ == pitch_outcome(game@, world@, thresholds@, old(rng)@).0,
        final(rng)@ == pitch_outcome(game@, world@, thresholds@, old(rng)@).1,
{
    let batter = world.player(game.scoreboard.batting_team().batter.unwrap());
    let lineup = &world.team(game.scoreboard.pitching_team().id).lineup;
    let is_flinching = game.strikes == 0 && batter.mods.has(Mod::Flinch);
    let is_strike = thresholds.strike.is_above(rng.next());
    let does_swing = if !is_flinching {
        let swing_roll = rng.next();
        if is_strike {
            thresholds.swing_strike.is_above(swing_roll)
        } else {
            thresholds.swing_ball.is_above(swing_roll)
        }
    } else {
        false
    };
    if !does_swing {
        if is_strike {
            return PitchOutcome::StrikeLooking;
        } else {
            return PitchOutcome::Ball;
        }
    }
    let contact_roll = rng.next();
    let does_contact = if is_strike {
        thresholds.contact_strike.is_above(contact_roll)
    } else {
        thresholds.contact_ball.is_above(contact_roll)
    };
    if !does_contact {
        return PitchOutcome::StrikeSwinging;
    }
    if thresholds.foul.is_above(rng.next()) {
        return PitchOutcome::Foul;
    }
    let od = pick_index(rng.next(), lineup.len());
    assert(thresholds@.fielders[od as int] == thresholds.fielders@[od as int]@);
    let out_defender = &thresholds.fielders[od];
    let is_out = out_defender.out.is_below(rng.next());
    if is_out {
        let fly_defender_id = lineup[pick_index(rng.next(), lineup.len())];
        if out_defender.fly.is_above(rng.next()) {
            let advancing_runners = roll_advances(game, &thresholds.flyout_advance, rng);
            return PitchOutcome::Flyout { fielder: fly_defender_id, advancing_runners };
        }
        let ground_defender_id = lineup[pick_index(rng.next(), lineup.len())];
        if game.runners.empty() {
            return PitchOutcome::GroundOut {
                fielder: ground_defender_id,
                advancing_runners: Vec::new(),
            };
        }
        let dp_roll = rng.next();
        if game.runners.occupied(0) {
            if game.outs < 2 && out_defender.double_play.is_above(dp_roll) {
                return PitchOutcome::DoublePlay { runner_out: game.runners.pick_runner(rng.next()) };
            }
            if thresholds.sacrifice.is_above(rng.next()) {
                let advancing_runners = roll_advances(game, &out_defender.groundout_advance, rng);
                return PitchOutcome::GroundOut { fielder: ground_defender_id, advancing_runners };
            }
            return PitchOutcome::FieldersChoice { runner_out: game.runners.pick_runner_fc() };
        }
        let advancing_runners = roll_advances(game, &out_defender.groundout_advance, rng);
        return PitchOutcome::GroundOut { fielder: ground_defender_id, advancing_runners };
    }
    if thresholds.home_run.is_above(rng.next()) {
        return PitchOutcome::HomeRun;
    }
    let hd = pick_index(rng.next(), lineup.len());
    assert(thresholds@.fielders[hd as int] == thresholds.fielders@[hd as int]@);
    let hit_defender = &thresholds.fielders[hd];
    let double_roll = rng.next();
    let triple_roll = rng.next();
    let advancing_runners = roll_advances(game, &hit_defender.hit_advance, rng);
    if hit_defender.triple.is_above(triple_roll) {
        return PitchOutcome::Triple { advancing_runners };
    }
    if hit_defender.double.is_above(double_roll) {
        return PitchOutcome::Double { advancing_runners };
    }
    PitchOutcome::Single { advancing_runners }
}

/// The number of strikes that put the batter out.
pub fn get_max_strikes(game: &Game, world: &World) -> (n: i16)
    requires
        batter_known(game@, world@),
    ensures
        n == max_strikes(game@, world@),
{
    game.get_max_strikes(world)
}

/// The runners after those who get to advance have done so if they could.
fn advance_runners(runners: &Baserunners, amount: u8, advancing: &Vec<u128>) -> (r: Baserunners)
    requires
        bases_below(runners@, 250),
        amount <= 3,
    ensures
        r@ == advance_if_from(advance_each(runners@, amount as int), advancing@, 0),
        amount == 0 ==> r@ == advance_if_from(runners@, advancing@, 0),
        r.base_number == runners.base_number,
{
    let mut new_runners = runners.clone();
    if amount > 0 {
        new_runners.advance_all(amount);
    } else {
        assert(runners@ =~= advance_each(runners@, 0));
    }
    new_runners.advance_if(advancing);
    new_runners
}

/// The runners after the one on `runner_out` is out and the others have
/// moved up one base.
fn force_out(runners: &Baserunners, runner_out: u8) -> (r: Baserunners)
    requires
        bases_below(runners@, 250),
    ensures
        r@ == advance_each(removed_first(runners@, runner_out as int), 1),
        r.base_number == runners.base_number,
{
    let mut new_runners = runners.clone();
    let _ = new_runners.remove(runner_out);
    proof {
        crate::bases::lemma_first_on(runners@, runner_out as int);
    }
    new_runners.advance_all(1);
    new_runners
}

/// The pitch phase: resolves one pitch and gives its event.
pub fn pitch(game: &Game, world: &World, rng: &mut Rng, thresholds: &PitchThresholds) -> (e: Event)
    requires
        can_pitch(game@, world@, thresholds@),
    ensures
        e@ == pitch_event(game@, world@, thresholds@, old(rng)@).0,
        final(rng)@ == pitch_event(game@, world@, thresholds@, old(rng)@).1,
{
    let max_balls = game.get_max_balls(world);
    let max_strikes = game.get_max_strikes(world);
    let last_strike = (game.strikes + 1) >= max_strikes;
    match do_pitch(world, game, rng, thresholds) {
        PitchOutcome::Ball => {
            if (game.balls + 1) < max_balls {
                Event::Ball
            } else {
                Event::Walk
            }
        },
        PitchOutcome::StrikeSwinging => {
            if last_strike {
                Event::Strikeout
            } else {
                Event::Strike
            }
        },
        PitchOutcome::StrikeLooking => {
            if last_strike {
                Event::Strikeout
            } else {
                Event::Strike
            }
        },
        PitchOutcome::Foul => Event::Foul,
        PitchOutcome::GroundOut { fielder, advancing_runners } => Event::GroundOut {
            fielder,
            runners_after: advance_runners(&game.runners, 0, &advancing_runners),
        },
        PitchOutcome::Flyout { fielder, advancing_runners } => Event::Flyout {
            fielder,
            runners_after: advance_runners(&game.runners, 0, &advancing_runners),
        },
        PitchOutcome::DoublePlay { runner_out } => Event::DoublePlay {
            runners_after: force_out(&game.runners, runner_out),
        },
        PitchOutcome::FieldersChoice { runner_out } => Event::FieldersChoice {
            runners_after: force_out(&game.runners, runner_out),
        },
        PitchOutcome::HomeRun => Event::HomeRun,
        PitchOutcome::Triple { advancing_runners } => Event::BaseHit {
            bases: 3,
            runners_after: advance_runners(&game.runners, 3, &advancing_runners),
        },
        PitchOutcome::Double { advancing_runners } => Event::BaseHit {
            bases: 2,
            runners_after: advance_runners(&game.runners, 2, &advancing_runners),
        },
        PitchOutcome::Single { advancing_runners } => Event::BaseHit {
            bases: 1,
            runners_after: advance_runners(&game.runners, 1, &advancing_runners),
        },
    }
}

/// The phases of a tick, in their order.
#[derive(Debug, Clone, Copy, PartialEq, Eq, Structural)]
pub enum Plugin {
    InningState,
    ExtraWeather,
    BatterState,
    Weather,
    Modifier,
    Stealing,
    Base,
}

/// What the phase `p` gives for a game in which the phases before it gave
/// nothing, and the state in which it leaves the generator.
pub open spec fn phase_event(
    p: Plugin,
    g: GameView,
    w: WorldView,
    t: PitchThresholdsView,
    s: RngState,
    fresh: u128,
) -> (Option<EventView>, RngState) {
    match p {
        Plugin::InningState => (inning_state_event(g), s),
        Plugin::ExtraWeather => extra_weather_event(g, s),
        Plugin::BatterState => batter_state_event(g, w, s),
        Plugin::Weather => crate::weather::weather_event(g, w, s, fresh),
        Plugin::Modifier => modifier_event(g, w, s),
        Plugin::Stealing => stealing_event(g, s),
        Plugin::Base => (Some(pitch_event(g, w, t, s).0), pitch_event(g, w, t, s).1),
    }
}

/// What has to hold for the phase `p`.
pub open spec fn can_run_phase(
    p: Plugin,
    g: GameView,
    w: WorldView,
    t: PitchThresholdsView,
    s: RngState,
) -> bool {
    match p {
        Plugin::InningState => g.inning < i16::MAX,
        Plugin::ExtraWeather => g.weather == Weather::Salmon ==> g.linescore_away.len() > 0
            && g.linescore_home.len() > 0,
        Plugin::BatterState => can_pick_batter(g, w),
        Plugin::Weather => crate::weather::can_weather(g, w, s),
        Plugin::Modifier => battery_known(g, w),
        Plugin::Stealing => true,
        Plugin::Base => can_pitch(g, w, t),
    }
}

impl Plugin {
    /// Runs the phase.
    pub fn tick(
        &self,
        game: &Game,
        world: &World,
        rng: &mut Rng,
        thresholds: &PitchThresholds,
    ) -> (r: Option<Event>)
        requires
            can_run_phase(*self, game@, world@, thresholds@, old(rng)@),
        ensures
            same_event(
                r,
                phase_event(
                    *self,
                    game@,
                    world@,
                    thresholds@,
                    old(rng)@,
                    crate::weather::replacement_id(r),
                ).0,
            ),
            final(rng)@ == phase_event(
                *self,
                game@,
                world@,
                thresholds@,
                old(rng)@,
                crate::weather::replacement_id(r),
            ).1,
    {
        match self {
            Plugin::InningState => inning_state(game),
            Plugin::ExtraWeather => extra_weather(game, rng),
            Plugin::BatterState => batter_state(game, world, rng),
            Plugin::Weather => crate::weather::weather(game, world, rng),
            Plugin::Modifier => modifier(game, world, rng),
            Plugin::Stealing => stealing(game, rng),
            Plugin::Base => Some(pitch(game, world, rng, thresholds)),
        }
    }
}

/// The phases from position `k` on.
pub open spec fn phases() -> Seq<Plugin> {
    seq![
        Plugin::InningState,
        Plugin::ExtraWeather,
        Plugin::BatterState,
        Plugin::Weather,
        Plugin::Modifier,
        Plugin::Stealing,
        Plugin::Base,
    ]
}

/// The event of a tick whose phases before position `k` gave nothing, and
/// the state in which the tick leaves the generator: what the first phase
/// from `k` on to give an event gives.
pub open spec fn tick_from(
    k: int,
    g: GameView,
    w: WorldView,
    t: PitchThresholdsView,
    s: RngState,
    fresh: u128,
) -> (EventView, RngState)
    decreases 7 - k,
{
    if k < 0 || k >= 6 {
        pitch_event(g, w, t, s)
    } else {
        let r = phase_event(phases()[k], g, w, t, s, fresh);
        match r.0 {
            Some(e) => (e, r.1),
            None => tick_from(k + 1, g, w, t, r.1, fresh),
        }
    }
}

/// The event of a tick, and the state in which it leaves the generator.
pub open spec fn tick_event(
    g: GameView,
    w: WorldView,
    t: PitchThresholdsView,
    s: RngState,
    fresh: u128,
) -> (EventView, RngState) {
    tick_from(0, g, w, t, s, fresh)
}

/// What has to hold for the phases of a tick from position `k` on: each
/// phase that is reached can run.
pub open spec fn can_tick_from(
    k: int,
    g: GameView,
    w: WorldView,
    t: PitchThresholdsView,
    s: RngState,
) -> bool
    decreases 7 - k,
{
    if k < 0 || k >= 7 {
        true
    } else {
        let r = phase_event(phases()[k], g, w, t, s, 0);
        &&& can_run_phase(phases()[k], g, w, t, s)
        &&& r.0 is None ==> can_tick_from(k + 1, g, w, t, r.1)
    }
}

/// What has to hold for a tick.
pub open spec fn can_tick(g: GameView, w: WorldView, t: PitchThresholdsView, s: RngState) -> bool {
    can_tick_from(0, g, w, t, s)
}

/// The event of the tick.
pub fn next_event(game: &Game, world: &World, rng: &mut Rng, thresholds: &PitchThresholds) -> (e:
    Event)
    requires
        can_tick(game@, world@, thresholds@, old(rng)@),
    ensures
        e@ == tick_event(
            game@,
            world@,
            thresholds@,
            old(rng)@,
            crate::weather::replacement_id(Some(e)),
        ).0,
        final(rng)@ == tick_event(
            game@,
            world@,
            thresholds@,
            old(rng)@,
            crate::weather::replacement_id(Some(e)),
        ).1,
{
    let order = [
        Plugin::InningState,
        Plugin::ExtraWeather,
        Plugin::BatterState,
        Plugin::Weather,
        Plugin::Modifier,
        Plugin::Stealing,
    ];
    assert(order@ =~= phases().take(6));
    let mut k: usize = 0;
    while k < 6
        invariant
            k <= 6,
            order@ == phases().take(6),
            can_tick_from(k as int, game@, world@, thresholds@, rng@),
            forall|fresh: u128|
                tick_event(game@, world@, thresholds@, old(rng)@, fresh) == #[trigger] tick_from(
                    k as int,
                    game@,
                    world@,
                    thresholds@,
                    rng@,
                    fresh,
                ),
        decreases 6 - k,
    {
        let ghost s = rng@;
        assert(order@[k as int] == phases()[k as int]);
        let r = order[k].tick(game, world, rng, thresholds);
        proof {
            lemma_phase_fresh(
                order@[k as int],
                game@,
                world@,
                thresholds@,
                s,
                crate::weather::replacement_id(r),
            );
        }
        match r {
            Some(e) => {
                proof {
                    let fresh = crate::weather::replacement_id(r);
                    assert(tick_event(game@, world@, thresholds@, old(rng)@, fresh) == tick_from(
                        k as int,
                        game@,
                        world@,
                        thresholds@,
                        s,
                        fresh,
                    ));
                    assert(phase_event(phases()[k as int], game@, world@, thresholds@, s, fresh).0
                        == Some(e@));
                }
                return e;
            },
            None => {},
        }
        proof {
            assert forall|fresh: u128|
                tick_event(game@, world@, thresholds@, old(rng)@, fresh) == #[trigger] tick_from(
                    k + 1,
                    game@,
                    world@,
                    thresholds@,
                    rng@,
                    fresh,
                ) by {
                lemma_phase_fresh(order@[k as int], game@, world@, thresholds@, s, fresh);
                assert(tick_event(game@, world@, thresholds@, old(rng)@, fresh) == tick_from(
                    k as int,
                    game@,
                    world@,
                    thresholds@,
                    s,
                    fresh,
                ));
            }
        }
        k += 1;
    }
    assert(tick_from(6, game@, world@, thresholds@, rng@, 0) == pitch_event(
        game@,
        world@,
        thresholds@,
        rng@,
    ));
    assert(can_run_phase(phases()[6], game@, world@, thresholds@, rng@));
    pitch(game, world, rng, thresholds)
}

/// Whether a phase gives an event does not depend on the identity of a
/// replacement, nor does the state in which it leaves the generator; and
/// only an incineration carries a replacement.
pub proof fn lemma_phase_fresh(
    p: Plugin,
    g: GameView,
    w: WorldView,
    t: PitchThresholdsView,
    s: RngState,
    fresh: u128,
)
    ensures
        phase_event(p, g, w, t, s, fresh).0 is None <==> phase_event(p, g, w, t, s, 0).0 is None,
        phase_event(p, g, w, t, s, fresh).1 == phase_event(p, g, w, t, s, 0).1,
        phase_event(p, g, w, t, s, fresh).0 is None ==> phase_event(p, g, w, t, s, fresh)
            == phase_event(p, g, w, t, s, 0),
{
}

/// A world and a generator, ready to give the events of games.
pub struct Sim<'a> {
    pub world: &'a mut World,
    pub rng: &'a mut Rng,
}

impl<'a> Sim<'a> {
    /// A simulator over the world and the generator.
    pub fn new(world: &'a mut World, rng: &'a mut Rng) -> (sim: Sim<'a>)
        ensures
            *sim.world == *old(world),
            *sim.rng == *old(rng),
            *final(world) == *final(sim.world),
            *final(rng) == *final(sim.rng),
    {
        Sim { world, rng }
    }

    /// The event of the next tick of the game.
    pub fn next(&mut self, game: &Game, thresholds: &PitchThresholds) -> (e: Event)
        requires
            can_tick(game@, old(self).world@, thresholds@, old(self).rng@),
        ensures
            e@ == tick_event(
                game@,
                old(self).world@,
                thresholds@,
                old(self).rng@,
                crate::weather::replacement_id(Some(e)),
            ).0,
            final(self).rng@ == tick_event(
                game@,
                old(self).world@,
                thresholds@,
                old(self).rng@,
                crate::weather::replacement_id(Some(e)),
            ).1,
            final(self).world@ == old(self).world@,
    {
        next_event(game, &*self.world, &mut *self.rng, thresholds)
    }
}

} // verus!
