//! The state of one game: weather, count, outs, inning, score and
//! baserunners.
//!
//! Scores and run values are counted in tenths of a run.  Their sums are
//! held within the range of the representation.

use vstd::prelude::*;
use crate::bases::{Baserunner, Baserunners};
use crate::entities::{clamped_sum, PlayerView, runner_run_value, TeamView, World, WorldView};
use crate::events::Events;
use crate::ids::fresh_id;
use crate::mods::{Mod, Mods, seq_has_mod, without_mod};
use crate::rng::{draw, draw_index, DRAW_SPAN, pick_index, Rng, skip};

verus! {

/// One run, in the unit of scores.
pub const RUN: i64 = 10;

/// The score at which the second sun and the black hole swallow ten runs.
pub const SUN_LIMIT: i64 = 100;

/// The weather of a game.
#[derive(Debug, Clone, Copy, PartialEq, Eq, Structural)]
pub enum Weather {
    Sun,
    Eclipse,
    Peanuts,
    Birds,
    Feedback,
    Reverb,
    Blooddrain,
    Sun2,
    BlackHole,
    Coffee,
    Coffee2,
    Coffee3,
    Flooding,
    Salmon,
    PolarityPlus,
    PolarityMinus,
    SunPointOne,
    SumSun,
    Night,
}

/// The sum of the weights of the weathers of a day of season 11.
pub open spec fn weather_weight_sum(day: int) -> nat {
    if day < 72 {
        240
    } else {
        440
    }
}

/// The weather of season 11 that a roll below the sum of the weights
/// selects.  The weights are 50 for the second sun, 20 for eclipse, 20 for
/// blooddrain, 35 for peanuts, 20 each for birds, feedback and reverb, 50 for
/// the black hole, 2, 2 and 1 for the three coffees and, from day 72 on, 200
/// for flooding.
pub open spec fn weather_for_roll(roll: int) -> Weather {
    if roll < 50 {
        Weather::Sun2
    } else if roll < 70 {
        Weather::Eclipse
    } else if roll < 90 {
        Weather::Blooddrain
    } else if roll < 125 {
        Weather::Peanuts
    } else if roll < 145 {
        Weather::Birds
    } else if roll < 165 {
        Weather::Feedback
    } else if roll < 185 {
        Weather::Reverb
    } else if roll < 235 {
        Weather::BlackHole
    } else if roll < 237 {
        Weather::Coffee
    } else if roll < 239 {
        Weather::Coffee2
    } else if roll < 240 {
        Weather::Coffee3
    } else {
        Weather::Flooding
    }
}

impl Weather {
    /// The weather of a day of season 11, chosen by one draw.
    pub fn generate(rng: &mut Rng, season_ruleset: u8, day: usize) -> (w: Weather)
        requires
            season_ruleset == 11,
        ensures
            final(rng)@ == skip(old(rng)@, 1),
            w == weather_for_roll(
                draw_index(draw(old(rng)@, 0), weather_weight_sum(day as int)) as int,
            ),
    {
        let weight_sum: usize = if day < 72 {
            240
        } else {
            440
        };
        let roll = rng.index(weight_sum);
        if roll < 50 {
            Weather::Sun2
        } else if roll < 70 {
            Weather::Eclipse
        } else if roll < 90 {
            Weather::Blooddrain
        } else if roll < 125 {
            Weather::Peanuts
        } else if roll < 145 {
            Weather::Birds
        } else if roll < 165 {
            Weather::Feedback
        } else if roll < 185 {
            Weather::Reverb
        } else if roll < 235 {
            Weather::BlackHole
        } else if roll < 237 {
            Weather::Coffee
        } else if roll < 239 {
            Weather::Coffee2
        } else if roll < 240 {
            Weather::Coffee3
        } else {
            Weather::Flooding
        }
    }
}

/// One side of a game.
#[derive(Debug, Clone, Copy, PartialEq, Eq, Structural)]
pub struct GameTeam {
    pub id: u128,
    pub pitcher: u128,
    pub batter: Option<u128>,
    pub batter_index: usize,
    pub score: i64,
}

/// The two sides of a game and which of them bats: the away team in the
/// top of an inning, the home team in the bottom.
#[derive(Debug, Clone, Copy, PartialEq, Eq, Structural)]
pub struct Scoreboard {
    pub home_team: GameTeam,
    pub away_team: GameTeam,
    pub top: bool,
}

impl Scoreboard {
    /// The side in the field.
    pub open spec fn fielding(self) -> GameTeam {
        if self.top {
            self.home_team
        } else {
            self.away_team
        }
    }

    /// The side at bat.
    pub open spec fn batting(self) -> GameTeam {
        if self.top {
            self.away_team
        } else {
            self.home_team
        }
    }

    /// The scoreboard with `t` as the side at bat.
    pub open spec fn with_batting(self, t: GameTeam) -> Scoreboard {
        if self.top {
            Scoreboard { away_team: t, ..self }
        } else {
            Scoreboard { home_team: t, ..self }
        }
    }

    /// The scoreboard with `t` as the side in the field.
    pub open spec fn with_fielding(self, t: GameTeam) -> Scoreboard {
        if self.top {
            Scoreboard { home_team: t, ..self }
        } else {
            Scoreboard { away_team: t, ..self }
        }
    }

    /// The side in the field.
    pub fn pitching_team(&self) -> (t: &GameTeam)
        ensures
            *t == self.fielding(),
    {
        if self.top {
            &self.home_team
        } else {
            &self.away_team
        }
    }

    /// The side at bat.
    pub fn batting_team(&self) -> (t: &GameTeam)
        ensures
            *t == self.batting(),
    {
        if self.top {
            &self.away_team
        } else {
            &self.home_team
        }
    }

    /// The side in the field, to be changed in place.
    pub fn pitching_team_mut(&mut self) -> (t: &mut GameTeam)
        ensures
            *t == old(self).fielding(),
            *final(self) == old(self).with_fielding(*final(t)),
    {
        if self.top {
            &mut self.home_team
        } else {
            &mut self.away_team
        }
    }

    /// The side at bat, to be changed in place.
    pub fn batting_team_mut(&mut self) -> (t: &mut GameTeam)
        ensures
            *t == old(self).batting(),
            *final(self) == old(self).with_batting(*final(t)),
    {
        if self.top {
            &mut self.away_team
        } else {
            &mut self.home_team
        }
    }
}

/// What the formulas of a pitch read of the game besides the players.
#[derive(Debug)]
pub struct MultiplierData {
    pub batting_team_mods: Mods,
    pub pitching_team_mods: Mods,
    pub weather: Weather,
    pub day: usize,
    pub runners_empty: bool,
    pub top: bool,
    pub maximum_blaseball: bool,
    pub at_bats: i32,
}

/// A game.
#[derive(Debug)]
pub struct Game {
    pub id: u128,
    pub weather: Weather,
    pub day: usize,
    /// The inning, counted from 1.
    pub inning: i16,
    pub balls: i16,
    pub strikes: i16,
    pub outs: i16,
    /// Whether runs count against the team that scores them.
    pub polarity: bool,
    pub scoring_plays_inning: u8,
    pub salmon_resets_inning: i16,
    pub events: Events,
    pub started: bool,
    pub scoreboard: Scoreboard,
    pub runners: Baserunners,
    /// The home team's runs by half-inning; the first entry is their sum.
    pub linescore_home: Vec<i64>,
    /// The away team's runs by half-inning; the first entry is their sum.
    pub linescore_away: Vec<i64>,
}

/// What a game is, as plain values.
pub struct GameView {
    pub id: u128,
    pub weather: Weather,
    pub day: usize,
    pub inning: i16,
    pub balls: i16,
    pub strikes: i16,
    pub outs: i16,
    pub polarity: bool,
    pub scoring_plays_inning: u8,
    pub salmon_resets_inning: i16,
    pub events: Seq<Seq<char>>,
    pub started: bool,
    pub scoreboard: Scoreboard,
    pub runners: Seq<Baserunner>,
    pub base_number: u8,
    pub linescore_home: Seq<i64>,
    pub linescore_away: Seq<i64>,
}

impl View for Game {
    type V = GameView;

    open spec fn view(&self) -> GameView {
        GameView {
            id: self.id,
            weather: self.weather,
            day: self.day,
            inning: self.inning,
            balls: self.balls,
            strikes: self.strikes,
            outs: self.outs,
            polarity: self.polarity,
            scoring_plays_inning: self.scoring_plays_inning,
            salmon_resets_inning: self.salmon_resets_inning,
            events: self.events@,
            started: self.started,
            scoreboard: self.scoreboard,
            runners: self.runners@,
            base_number: self.runners.base_number,
            linescore_home: self.linescore_home@,
            linescore_away: self.linescore_away@,
        }
    }
}

impl Clone for Game {
    fn clone(&self) -> (r: Game)
        ensures
            r@ == self@,
    {
        Game {
            id: self.id,
            weather: self.weather,
            day: self.day,
            inning: self.inning,
            balls: self.balls,
            strikes: self.strikes,
            outs: self.outs,
            polarity: self.polarity,
            scoring_plays_inning: self.scoring_plays_inning,
            salmon_resets_inning: self.salmon_resets_inning,
            events: self.events.clone(),
            started: self.started,
            scoreboard: self.scoreboard,
            runners: self.runners.clone(),
            linescore_home: self.linescore_home.clone(),
            linescore_away: self.linescore_away.clone(),
        }
    }
}

/// The value of a run in the game `g`, in tenths of a run: one run, or a
/// tenth of a run for each inning played under the sun of point one; taken
/// off instead of added under negative polarity; and under the sum sun one
/// run more for each scoring play of the half-inning.
pub open spec fn run_value(g: GameView) -> i64 {
    let base: int = if g.weather == Weather::SunPointOne {
        g.inning as int
    } else {
        RUN as int
    };
    let signed: int = if g.polarity {
        -base
    } else {
        base
    };
    let bonus: int = if g.weather == Weather::SumSun {
        RUN * g.scoring_plays_inning
    } else {
        0
    };
    (signed + bonus) as i64
}

/// The number of strikes that put a batter out: four for a batter who has,
/// or whose team has, a fourth strike; else three.
pub open spec fn max_strikes(g: GameView, w: WorldView) -> i16 {
    let batter = w.players[g.scoreboard.batting().batter->0];
    let team = w.teams[g.scoreboard.batting().id];
    if seq_has_mod(batter.mods, Mod::FourthStrike) || seq_has_mod(team.mods, Mod::FourthStrike) {
        4
    } else {
        3
    }
}

/// The number of balls that walk a batter: three for a batter who has, or
/// whose team has, a walk in the park; else four.
pub open spec fn max_balls(g: GameView, w: WorldView) -> i16 {
    let batter = w.players[g.scoreboard.batting().batter->0];
    let team = w.teams[g.scoreboard.batting().id];
    if seq_has_mod(batter.mods, Mod::WalkInThePark) || seq_has_mod(team.mods, Mod::WalkInThePark) {
        3
    } else {
        4
    }
}

/// The number of bases in play for the team `team`: five with a fifth
/// base, else four.
pub open spec fn team_bases(team: TeamView) -> u8 {
    if seq_has_mod(team.mods, Mod::FifthBase) {
        5
    } else {
        4
    }
}

/// The score with which the home team `team` starts: one run with the
/// home field advantage, else none.
pub open spec fn starting_score(team: TeamView) -> i64 {
    if seq_has_mod(team.mods, Mod::HomeFieldAdvantage) {
        RUN
    } else {
        0
    }
}

/// Whether the batter of the game is set and known to the world, and the
/// batting team is known.
pub open spec fn batter_known(g: GameView, w: WorldView) -> bool {
    &&& g.scoreboard.batting().batter is Some
    &&& w.players.contains_key(g.scoreboard.batting().batter->0)
    &&& w.teams.contains_key(g.scoreboard.batting().id)
}

/// The game that starts between the home team `home` and the away team
/// `away`, whatever its identity: first inning, top, no count, no runner.
pub open spec fn new_game(
    id: u128,
    home: u128,
    away: u128,
    day: usize,
    weather: Weather,
    w: WorldView,
) -> GameView {
    GameView {
        id,
        weather,
        day,
        inning: 1,
        balls: 0,
        strikes: 0,
        outs: 0,
        polarity: false,
        scoring_plays_inning: 0,
        salmon_resets_inning: 0,
        events: Seq::empty(),
        started: false,
        scoreboard: Scoreboard {
            home_team: GameTeam {
                id: home,
                pitcher: w.teams[home].rotation[day as int % w.teams[home].rotation.len() as int],
                batter: None,
                batter_index: 0,
                score: starting_score(w.teams[home]),
            },
            away_team: GameTeam {
                id: away,
                pitcher: w.teams[away].rotation[day as int % w.teams[away].rotation.len() as int],
                batter: None,
                batter_index: 0,
                score: 0,
            },
            top: true,
        },
        runners: Seq::empty(),
        base_number: team_bases(w.teams[away]),
        linescore_home: seq![starting_score(w.teams[home])],
        linescore_away: seq![0i64],
    }
}

/// The test that a runner stands short of the base `home`.
pub open spec fn is_short_of(home: int) -> spec_fn(Baserunner) -> bool {
    |r: Baserunner| r.base < home
}

/// The test that a runner has reached the base `home`.
pub open spec fn has_reached(home: int) -> spec_fn(Baserunner) -> bool {
    |r: Baserunner| r.base >= home
}

/// The runners of `s` who stay on base when the runners who reached the
/// base `home` are swept off.
pub open spec fn staying(s: Seq<Baserunner>, home: int) -> Seq<Baserunner> {
    s.filter(is_short_of(home))
}

/// The runners of `s` who have reached the base `home`.
pub open spec fn scoring(s: Seq<Baserunner>, home: int) -> Seq<Baserunner> {
    s.filter(has_reached(home))
}

impl Game {
    /// A new game between the home team `team_a` and the away team
    /// `team_b`, with a fresh random identity.  Unless the weather is given,
    /// one draw chooses it.
    pub fn new(
        team_a: u128,
        team_b: u128,
        day: usize,
        weather_override: Option<Weather>,
        world: &World,
        rng: &mut Rng,
    ) -> (g: Game)
        requires
            world@.teams.contains_key(team_a),
            world@.teams.contains_key(team_b),
            world@.teams[team_a].rotation.len() > 0,
            world@.teams[team_b].rotation.len() > 0,
            weather_override is None ==> world@.season_ruleset == 11,
        ensures
            final(rng)@ == skip(
                old(rng)@,
                if weather_override is Some {
                    0
                } else {
                    1
                },
            ),
            g@ == new_game(
                g.id,
                team_a,
                team_b,
                day,
                match weather_override {
                    Some(w) => w,
                    None => weather_for_roll(
                        draw_index(draw(old(rng)@, 0), weather_weight_sum(day as int)) as int,
                    ),
                },
                world@,
            ),
    {
        let weather = match weather_override {
            Some(w) => w,
            None => Weather::generate(rng, world.season_ruleset, day),
        };
        let home = world.team(team_a);
        let away = world.team(team_b);
        let home_score: i64 = if home.mods.has(Mod::HomeFieldAdvantage) {
            RUN
        } else {
            0
        };
        let mut linescore_home: Vec<i64> = Vec::new();
        linescore_home.push(home_score);
        let mut linescore_away: Vec<i64> = Vec::new();
        linescore_away.push(0);
        let g = Game {
            id: fresh_id(),
            weather,
            day,
            inning: 1,
            balls: 0,
            strikes: 0,
            outs: 0,
            polarity: false,
            scoring_plays_inning: 0,
            salmon_resets_inning: 0,
            events: Events::new(),
            started: false,
            scoreboard: Scoreboard {
                home_team: GameTeam {
                    id: team_a,
                    pitcher: home.rotation[day % home.rotation.len()],
                    batter: None,
                    batter_index: 0,
                    score: home_score,
                },
                away_team: GameTeam {
                    id: team_b,
                    pitcher: away.rotation[day % away.rotation.len()],
                    batter: None,
                    batter_index: 0,
                    score: 0,
                },
                top: true,
            },
            runners: Baserunners::new(
                if away.mods.has(Mod::FifthBase) {
                    5
                } else {
                    4
                },
            ),
            linescore_home,
            linescore_away,
        };
        assert(g@.linescore_home =~= seq![starting_score(world@.teams[team_a])]);
        assert(g@.linescore_away =~= seq![0i64]);
        g
    }

    /// The value of a run, in tenths of a run.
    pub fn get_run_value(&self) -> (v: i64)
        ensures
            v == run_value(self@),
    {
        let base: i64 = match self.weather {
            Weather::SunPointOne => self.inning as i64,
            _ => RUN,
        };
        let signed: i64 = if self.polarity {
            -base
        } else {
            base
        };
        let bonus: i64 = match self.weather {
            Weather::SumSun => RUN * (self.scoring_plays_inning as i64),
            _ => 0,
        };
        signed + bonus
    }

    /// The number of strikes that put the batter out.
    pub fn get_max_strikes(&self, world: &World) -> (n: i16)
        requires
            batter_known(self@, world@),
        ensures
            n == max_strikes(self@, world@),
            n == 3 || n == 4,
    {
        let batter = world.player(self.scoreboard.batting_team().batter.unwrap());
        let team = world.team(self.scoreboard.batting_team().id);
        if batter.mods.has(Mod::FourthStrike) || team.mods.has(Mod::FourthStrike) {
            4
        } else {
            3
        }
    }

    /// The number of balls that walk the batter.
    pub fn get_max_balls(&self, world: &World) -> (n: i16)
        requires
            batter_known(self@, world@),
        ensures
            n == max_balls(self@, world@),
            n == 3 || n == 4,
    {
        let batter = world.player(self.scoreboard.batting_team().batter.unwrap());
        let team = world.team(self.scoreboard.batting_team().id);
        if batter.mods.has(Mod::WalkInThePark) || team.mods.has(Mod::WalkInThePark) {
            3
        } else {
            4
        }
    }

    /// The number of bases in play for the team at bat.
    pub fn get_bases(&self, world: &World) -> (n: u8)
        requires
            world@.teams.contains_key(self@.scoreboard.batting().id),
        ensures
            n == team_bases(world@.teams[self@.scoreboard.batting().id]),
    {
        if world.team(self.scoreboard.batting_team().id).mods.has(Mod::FifthBase) {
            5
        } else {
            4
        }
    }

    /// The batter, if one is at the plate.
    pub fn batter(&self) -> (b: Option<u128>)
        ensures
            b == self@.scoreboard.batting().batter,
    {
        self.scoreboard.batting_team().batter
    }

    /// Sends a batter to the plate.
    pub fn assign_batter(&mut self, new: u128)
        ensures
            final(self)@ == (GameView {
                scoreboard: old(self)@.scoreboard.with_batting(
                    GameTeam { batter: Some(new), ..old(self)@.scoreboard.batting() },
                ),
                ..old(self)@
            }),
    {
        self.scoreboard.batting_team_mut().batter = Some(new);
    }

    /// The pitcher.
    pub fn pitcher(&self) -> (p: u128)
        ensures
            p == self@.scoreboard.fielding().pitcher,
    {
        self.scoreboard.pitching_team().pitcher
    }

    /// Sends a pitcher to the mound.
    pub fn assign_pitcher(&mut self, new: u128)
        ensures
            final(self)@ == (GameView {
                scoreboard: old(self)@.scoreboard.with_fielding(
                    GameTeam { pitcher: new, ..old(self)@.scoreboard.fielding() },
                ),
                ..old(self)@
            }),
    {
        self.scoreboard.pitching_team_mut().pitcher = new;
    }

    /// What the formulas of a pitch read of the game.
    pub fn compute_multiplier_data(&self, world: &World) -> (d: MultiplierData)
        requires
            world@.teams.contains_key(self@.scoreboard.batting().id),
            world@.teams.contains_key(self@.scoreboard.fielding().id),
        ensures
            d.batting_team_mods@ == world@.teams[self@.scoreboard.batting().id].mods,
            d.pitching_team_mods@ == world@.teams[self@.scoreboard.fielding().id].mods,
            d.weather == self@.weather,
            d.day == self@.day,
            d.runners_empty == (self@.runners.len() == 0),
            d.top == self@.scoreboard.top,
            d.maximum_blaseball == (self@.runners.len() == 3),
            d.at_bats == 0,
    {
        MultiplierData {
            batting_team_mods: world.team(self.scoreboard.batting_team().id).mods.clone(),
            pitching_team_mods: world.team(self.scoreboard.pitching_team().id).mods.clone(),
            weather: self.weather,
            day: self.day,
            runners_empty: self.runners.empty(),
            top: self.scoreboard.top,
            maximum_blaseball: self.runners.runners.len() == 3,
            at_bats: 0,
        }
    }

    /// The fielder whom the draw `roll` selects from the lineup of the team
    /// in the field.
    pub fn pick_fielder(&self, world: &World, roll: u64) -> (id: u128)
        requires
            roll < DRAW_SPAN,
            world@.teams.contains_key(self@.scoreboard.fielding().id),
            world@.teams[self@.scoreboard.fielding().id].lineup.len() > 0,
        ensures
            id == fielder_for(self@, world@, roll),
    {
        let pitching_team = world.team(self.scoreboard.pitching_team().id);
        let idx = pick_index(roll, pitching_team.lineup.len());
        pitching_team.lineup[idx]
    }
}

/// The fielder whom the draw `roll` selects from the lineup of the team in
/// the field.
pub open spec fn fielder_for(g: GameView, w: WorldView, roll: u64) -> u128 {
    let lineup = w.teams[g.scoreboard.fielding().id].lineup;
    lineup[draw_index(roll, lineup.len()) as int]
}

/// What the sweep credits and changes when the runners of `runners` from
/// position `k` on are looked at in order: the runs that those who reached
/// `home` bring in, the outs that are left once each of them who had a free
/// refill has given one back, and the players without the refills that were
/// used.  Each run is worth `value` and what the runner adds to it.
pub open spec fn credited(
    runners: Seq<Baserunner>,
    home: int,
    value: i64,
    outs: i16,
    players: Map<u128, PlayerView>,
    k: int,
) -> (int, i16, Map<u128, PlayerView>)
    decreases runners.len() - k,
{
    if k < 0 || k >= runners.len() {
        (0, outs, players)
    } else if runners[k].base >= home {
        let p = players[runners[k].id];
        let gain = value + runner_run_value(p.mods);
        let refill = seq_has_mod(p.mods, Mod::FreeRefill);
        let rest = credited(
            runners,
            home,
            value,
            if refill && outs > 0 {
                (outs - 1) as i16
            } else {
                outs
            },
            if refill {
                players.insert(
                    runners[k].id,
                    PlayerView { mods: without_mod(p.mods, Mod::FreeRefill), ..p },
                )
            } else {
                players
            },
            k + 1,
        );
        (gain + rest.0, rest.1, rest.2)
    } else {
        credited(runners, home, value, outs, players, k + 1)
    }
}

/// Whether the world knows every runner of `runners` who has reached
/// `home`.
pub open spec fn scorers_known(runners: Seq<Baserunner>, home: int, w: WorldView) -> bool {
    forall|i: int|
        0 <= i < runners.len() && (#[trigger] runners[i]).base >= home ==> w.players.contains_key(
            runners[i].id,
        )
}

/// The game `g` and the world `w` after the runs of the runners who
/// reached home were credited.  Nothing is credited once the third out is
/// made.
pub open spec fn after_score(g: GameView, w: WorldView) -> (GameView, WorldView) {
    if g.outs < 3 {
        let c = credited(g.runners, g.base_number - 1, run_value(g), g.outs, w.players, 0);
        let bt = g.scoreboard.batting();
        (
            GameView {
                outs: c.1,
                scoreboard: g.scoreboard.with_batting(
                    GameTeam { score: clamped_sum(bt.score as int, c.0), ..bt },
                ),
                ..g
            },
            WorldView { players: c.2, ..w },
        )
    } else {
        (g, w)
    }
}

/// The game `g` after the runners who reached home left the bases.  If
/// there was one, the half-inning has one scoring play more.
pub open spec fn after_sweep(g: GameView) -> GameView {
    let kept = staying(g.runners, g.base_number - 1);
    GameView {
        runners: kept,
        scoring_plays_inning: if kept.len() < g.runners.len() {
            (g.scoring_plays_inning + 1) as u8
        } else {
            g.scoring_plays_inning
        },
        ..g
    }
}

/// The game `g` after the plate appearance is over: no batter, the next
/// place of the lineup, no count.
pub open spec fn after_pa(g: GameView) -> GameView {
    let bt = g.scoreboard.batting();
    GameView {
        balls: 0,
        strikes: 0,
        scoreboard: g.scoreboard.with_batting(
            GameTeam { batter: None, batter_index: (bt.batter_index + 1) as usize, ..bt },
        ),
        ..g
    }
}

/// The number of runners of `s` who have reached `home` is the number whom
/// the sweep takes off.
pub proof fn lemma_swept_are_scoring(s: Seq<Baserunner>, home: int)
    ensures
        scoring(s, home).len() + staying(s, home).len() == s.len(),
    decreases s.len(),
{
    reveal(Seq::filter);
    if s.len() > 0 {
        lemma_swept_are_scoring(s.drop_last(), home);
    }
}

impl Game {
    /// Credits the team at bat with the runs of the runners who reached
    /// home, unless the third out is made.  A scorer with a free refill
    /// gives an out back and loses the refill.
    pub fn score(&mut self, world: &mut World)
        requires
            old(self)@.outs < 3 ==> scorers_known(
                old(self)@.runners,
                old(self)@.base_number - 1,
                old(world)@,
            ),
            old(self)@.base_number >= 1,
        ensures
            final(self)@ == after_score(old(self)@, old(world)@).0,
            final(world)@ == after_score(old(self)@, old(world)@).1,
    {
        if self.outs < 3 {
            let value = self.get_run_value();
            let home = self.runners.base_number - 1;
            let mut runs: i128 = 0;
            let mut i: usize = 0;
            let ghost g0 = self@;
            let ghost w0 = world@;
            while i < self.runners.runners.len()
                invariant
                    i <= self@.runners.len(),
                    home == g0.base_number - 1,
                    value == run_value(g0),
                    self@ == (GameView { outs: self@.outs, ..g0 }),
                    world@ == (WorldView { players: world@.players, ..w0 }),
                    -200_000 * i <= runs <= 200_000 * i,
                    forall|j: int|
                        i <= j < self@.runners.len() && (#[trigger] self@.runners[j]).base >= home
                            ==> world@.players.contains_key(self@.runners[j].id),
                    credited(g0.runners, home as int, value, g0.outs, w0.players, 0) == ({
                        let rest = credited(
                            g0.runners,
                            home as int,
                            value,
                            self@.outs,
                            world@.players,
                            i as int,
                        );
                        (runs + rest.0, rest.1, rest.2)
                    }),
                decreases self@.runners.len() - i,
            {
                let runner = self.runners.runners[i];
                if runner.base >= home {
                    let ghost wb = world@;
                    let player = world.player_mut(runner.id);
                    runs = runs + value as i128 + player.get_run_value() as i128;
                    if player.mods.has(Mod::FreeRefill) {
                        if self.outs > 0 {
                            self.outs = self.outs - 1;
                        }
                        player.mods.remove(Mod::FreeRefill);
                    }
                    assert(world@.players.dom() =~= wb.players.dom().insert(runner.id));
                    assert(!seq_has_mod(wb.players[runner.id].mods, Mod::FreeRefill)
                        ==> world@.players =~= wb.players);
                }
                i += 1;
            }
            let bt = self.scoreboard.batting_team_mut();
            let total: i128 = bt.score as i128 + runs;
            bt.score = if total > i64::MAX as i128 {
                i64::MAX
            } else if total < i64::MIN as i128 {
                i64::MIN
            } else {
                total as i64
            };
        }
    }

    /// Takes the runners who reached home off the bases and counts the
    /// scoring play, if there was one.
    pub fn sweep(&mut self)
        requires
            old(self)@.scoring_plays_inning < u8::MAX,
            old(self)@.base_number >= 1,
        ensures
            final(self)@ == after_sweep(old(self)@),
    {
        let home = self.runners.base_number - 1;
        let ghost pred = is_short_of(home as int);
        let mut kept: Vec<Baserunner> = Vec::new();
        let mut i: usize = 0;
        proof {
            reveal(Seq::filter);
            assert(self@.runners.take(0) =~= Seq::<Baserunner>::empty());
        }
        while i < self.runners.runners.len()
            invariant
                i <= self@.runners.len(),
                self@ == old(self)@,
                home == self@.base_number - 1,
                pred == is_short_of(home as int),
                kept@ == self@.runners.take(i as int).filter(pred),
            decreases self@.runners.len() - i,
        {
            proof {
                crate::mods::lemma_filter_take_step(self@.runners, pred, i as int);
            }
            if self.runners.runners[i].base < home {
                kept.push(self.runners.runners[i]);
            }
            i += 1;
        }
        assert(self@.runners.take(i as int) =~= self@.runners);
        proof {
            self@.runners.lemma_filter_len(pred);
        }
        if kept.len() < self.runners.runners.len() {
            self.scoring_plays_inning += 1;
        }
        self.runners.runners = kept;
    }

    /// Credits the runs of the runners who reached home and takes those
    /// runners off the bases.
    pub fn base_sweep(&mut self, world: &mut World)
        requires
            old(self)@.outs < 3 ==> scorers_known(
                old(self)@.runners,
                old(self)@.base_number - 1,
                old(world)@,
            ),
            old(self)@.scoring_plays_inning < u8::MAX,
            old(self)@.base_number >= 1,
        ensures
            final(self)@ == after_sweep(after_score(old(self)@, old(world)@).0),
            final(world)@ == after_score(old(self)@, old(world)@).1,
    {
        self.score(world);
        self.sweep();
    }

    /// Ends the plate appearance: no batter, the next place of the lineup,
    /// no count.
    pub fn end_pa(&mut self)
        requires
            old(self)@.scoreboard.batting().batter_index < usize::MAX,
        ensures
            final(self)@ == after_pa(old(self)@),
    {
        let bt = self.scoreboard.batting_team_mut();
        bt.batter = None;
        bt.batter_index += 1;
        self.balls = 0;
        self.strikes = 0;
    }
}

} // verus!
