//! Tests that tell, before an event is applied or a tick is taken, whether
//! the game and the world allow it; and the steps that take a tick or apply
//! an event only where they do.

use vstd::prelude::*;
use crate::bases::{Baserunners, bases_below};
use crate::entities::{
    can_swap, Player, position_of, team_lists, team_with_replaced, World, WorldView,
};
use crate::events::{
    after_event, can_apply, can_close_pa, can_incinerate, Event, EventView, runners_known,
    with_replacement,
};
use crate::formulas::{
    FEEDBACK_BATTER_CHANCE, FEEDBACK_CHANCE, FLICKERING_FEEDBACK_CHANCE, PEANUT_CHANCE,
    PitchThresholds, UNSTABLE_INCINERATION_CHANCE,
};
use crate::game::{batter_known, Game, GameView, Weather};
use crate::mods::Mod;
use crate::reverb::valid_changes;
use crate::rng::{pick_index, Rng};
use crate::sim::{
    battery_known, can_pick_batter, can_pitch, can_run_phase, can_tick, can_tick_from,
    lemma_phase_fresh, phase_event, phases, Plugin, tick_event, tick_from,
};
use crate::weather::{
    are_known, are_rosters_known, can_eclipse, can_feedback, can_pick_now, can_weather, PickRule,
    replacement_id,
};

verus! {

/// Whether the batter of the game is set and known to the world, and the
/// batting team is known.
pub fn is_batter_known(game: &Game, world: &World) -> (b: bool)
    ensures
        b == batter_known(game@, world@),
{
    match game.scoreboard.batting_team().batter {
        Some(batter) => world.has_player(batter) && world.has_team(
            game.scoreboard.batting_team().id,
        ),
        None => false,
    }
}

/// Whether the world knows every runner of `runners`.
pub fn are_runners_known(runners: &Baserunners, world: &World) -> (b: bool)
    ensures
        b == runners_known(runners@, world@),
{
    let mut i: usize = 0;
    while i < runners.runners.len()
        invariant
            i <= runners@.len(),
            forall|j: int| 0 <= j < i ==> world@.players.contains_key((#[trigger] runners@[j]).id),
        decreases runners@.len() - i,
    {
        if !world.has_player(runners.runners[i].id) {
            return false;
        }
        i += 1;
    }
    true
}

/// Whether every runner of `runners` stands on a base below `bound`.
pub fn are_bases_below(runners: &Baserunners, bound: u16) -> (b: bool)
    ensures
        b == bases_below(runners@, bound as int),
{
    let mut i: usize = 0;
    while i < runners.runners.len()
        invariant
            i <= runners@.len(),
            forall|j: int| 0 <= j < i ==> (#[trigger] runners@[j]).base < bound,
        decreases runners@.len() - i,
    {
        if runners.runners[i].base as u16 >= bound {
            return false;
        }
        i += 1;
    }
    true
}

/// Whether the runners `runners` can be swept at the end of a plate
/// appearance.
fn can_close(game: &Game, world: &World, runners: &Baserunners) -> (b: bool)
    ensures
        b == can_close_pa(game@, world@, runners@),
{
    are_runners_known(runners, world) && game.scoring_plays_inning < u8::MAX
        && game.runners.base_number >= 1 && game.scoreboard.batting_team().batter_index
        < usize::MAX
}

/// Whether `changes` can be applied as a reverb of the kind `reverb_type`.
pub fn are_changes_valid(
    reverb_type: u8,
    lineup_len: usize,
    rotation_len: usize,
    changes: &Vec<usize>,
) -> (b: bool)
    requires
        lineup_len + rotation_len <= usize::MAX,
    ensures
        b == valid_changes(reverb_type, lineup_len as int, rotation_len as int, changes@),
{
    let length = lineup_len + rotation_len;
    let (count, bound): (usize, usize) = if reverb_type == 0 {
        if changes.len() < length {
            return false;
        }
        (length, length)
    } else if reverb_type == 1 {
        if changes.len() % 2 != 0 {
            return false;
        }
        (changes.len(), length)
    } else if reverb_type == 2 {
        if changes.len() < lineup_len {
            return false;
        }
        (lineup_len, lineup_len)
    } else if reverb_type == 3 {
        if changes.len() < rotation_len {
            return false;
        }
        (rotation_len, rotation_len)
    } else {
        return false;
    };
    let mut i: usize = 0;
    assert(valid_changes(reverb_type, lineup_len as int, rotation_len as int, changes@) == (forall|
        j: int,
    |
        0 <= j < count ==> changes@[j] < bound));
    while i < count
        invariant
            i <= count,
            count <= changes@.len(),
            valid_changes(reverb_type, lineup_len as int, rotation_len as int, changes@) == (forall|
                j: int,
            |
                0 <= j < count ==> changes@[j] < bound),
            forall|j: int| 0 <= j < i ==> changes@[j] < bound,
        decreases count - i,
    {
        if changes[i] >= bound {
            return false;
        }
        i += 1;
    }
    true
}

/// Whether the player `target` can be incinerated: the player is known and
/// on a team that is known and lists the player.
fn can_burn(world: &World, target: u128, replacement: &Player) -> (b: bool)
    ensures
        b == can_incinerate(world@, target, replacement@),
{
    if !world.has_player(target) {
        return false;
    }
    match world.player(target).team {
        Some(team) => {
            proof {
                let w1 = with_replacement(world@, target, replacement@);
                assert(w1.players[target].team == Some(team));
                assert(w1.teams == world@.teams);
            }
            world.has_team(team) && world.team(team).is_member(target)
        },
        None => false,
    }
}

/// After `new_id` took the place of `id` on a team that lists `id`, the
/// team lists `new_id`.
pub proof fn lemma_replaced_is_listed(t: crate::entities::TeamView, id: u128, new_id: u128)
    requires
        team_lists(t, id),
    ensures
        team_lists(team_with_replaced(t, id, new_id), new_id),
{
    crate::entities::lemma_position_of(t.lineup, id);
    crate::entities::lemma_position_of(t.rotation, id);
    crate::entities::lemma_position_of(t.shadows, id);
    let r = team_with_replaced(t, id, new_id);
    if t.lineup.contains(id) {
        assert(r.lineup[position_of(t.lineup, id)] == new_id);
    } else if t.rotation.contains(id) {
        assert(r.rotation[position_of(t.rotation, id)] == new_id);
    } else {
        assert(r.shadows[position_of(t.shadows, id)] == new_id);
    }
}

/// Whether two players can change teams with each other.
pub fn can_swap_players(world: &World, a: u128, b: u128) -> (r: bool)
    ensures
        r == can_swap(world@, a, b),
{
    if !world.has_player(a) || !world.has_player(b) {
        return false;
    }
    match (world.player(a).team, world.player(b).team) {
        (Some(team_a), Some(team_b)) => {
            if !world.has_team(team_a) || !world.has_team(team_b) {
                return false;
            }
            if !world.team(team_a).is_member(a) {
                return false;
            }
            if team_a == team_b {
                proof {
                    lemma_replaced_is_listed(world@.teams[team_a], a, b);
                }
                true
            } else {
                world.team(team_b).is_member(b)
            }
        },
        _ => false,
    }
}

impl Event {
    /// Whether the event can be applied to the game and the world.
    pub fn can_be_applied(&self, game: &Game, world: &World) -> (b: bool)
        ensures
            b == can_apply(self@, game@, world@),
    {
        let bt = game.scoreboard.batting_team();
        match self {
            Event::BatterUp { batter: _, reverberating } => !*reverberating || bt.batter_index > 0,
            Event::InningSwitch { inning: _, top } => {
                let next = if *top {
                    game.scoreboard.away_team.id
                } else {
                    game.scoreboard.home_team.id
                };
                if !world.has_team(next) {
                    return false;
                }
                match game.weather {
                    Weather::Salmon => if game.scoreboard.top {
                        game.linescore_away.len() > 0
                    } else {
                        game.linescore_home.len() > 0
                    },
                    _ => true,
                }
            },
            Event::GameOver => true,
            Event::Ball => game.balls < i16::MAX,
            Event::Strike => game.strikes < i16::MAX,
            Event::Foul => game.strikes < i16::MAX && is_batter_known(game, world),
            Event::Strikeout => is_batter_known(game, world) && game.outs < i16::MAX
                && bt.batter_index < usize::MAX,
            Event::Walk => is_batter_known(game, world) && can_close(game, world, &game.runners),
            Event::HomeRun => is_batter_known(game, world) && can_close(
                game,
                world,
                &game.runners,
            ) && are_bases_below(&game.runners, 256 - game.runners.base_number as u16),
            Event::BaseHit { bases, runners_after } => is_batter_known(game, world) && can_close(
                game,
                world,
                runners_after,
            ) && *bases >= 1,
            Event::GroundOut { fielder: _, runners_after } => is_batter_known(game, world)
                && can_close(game, world, runners_after) && game.outs < i16::MAX,
            Event::Flyout { fielder: _, runners_after } => is_batter_known(game, world)
                && can_close(game, world, runners_after) && game.outs < i16::MAX,
            Event::DoublePlay { runners_after } => is_batter_known(game, world) && can_close(
                game,
                world,
                runners_after,
            ) && game.outs < i16::MAX - 1,
            Event::FieldersChoice { runners_after } => is_batter_known(game, world) && can_close(
                game,
                world,
                runners_after,
            ) && game.outs < i16::MAX,
            Event::BaseSteal { runner: _, base_from, base_to: _ } => *base_from < u8::MAX
                && are_runners_known(&game.runners, world) && game.scoring_plays_inning < u8::MAX
                && game.runners.base_number >= 1,
            Event::CaughtStealing { .. } => game.outs < i16::MAX,
            Event::Incineration { target, replacement } => can_burn(world, *target, replacement),
            Event::Peanut { target, yummy: _ } => world.has_player(*target),
            Event::Birds => true,
            Event::Feedback { target1, target2 } => can_swap_players(world, *target1, *target2),
            Event::Reverb { reverb_type, team, changes } => {
                if !world.has_team(*team) {
                    return false;
                }
                let t = world.team(*team);
                let length = match t.lineup.len().checked_add(t.rotation.len()) {
                    Some(n) => n,
                    None => {
                        return false;
                    },
                };
                if !are_changes_valid(*reverb_type, t.lineup.len(), t.rotation.len(), changes) {
                    return false;
                }
                let ft = game.scoreboard.pitching_team();
                let bats = bt.id == *team && *reverb_type != 3;
                if bats && t.lineup.len() == 0 {
                    return false;
                }
                if (ft.id == *team || bt.id == *team) && !bats && *reverb_type != 2
                    && t.rotation.len() == 0 {
                    return false;
                }
                true
            },
            Event::Blooddrain { drainer, target, .. } => world.has_player(*drainer)
                && world.has_player(*target),
            Event::Sun2 { .. } => true,
            Event::BlackHole { .. } => true,
            Event::Salmon { home_runs_lost, away_runs_lost } => {
                let back = game.salmon_resets_inning;
                0 <= back && back < i16::MAX && (!*away_runs_lost || (back as usize)
                    < game.linescore_away.len()) && (!*home_runs_lost || (back as usize)
                    < game.linescore_home.len()) && (!game.scoreboard.top || game.inning
                    > i16::MIN)
            },
            Event::PolaritySwitch => true,
            Event::NightShift { batter, replacement, replacement_idx, boosts } => {
                let side = if *batter {
                    game.scoreboard.batting_team()
                } else {
                    game.scoreboard.pitching_team()
                };
                if !world.has_team(side.id) || !world.has_player(*replacement) || boosts.len()
                    < 25 {
                    return false;
                }
                let t = world.team(side.id);
                *replacement_idx < t.shadows.len() && (if *batter {
                    side.batter.is_some() && t.lineup.len() > 0
                } else {
                    t.rotation.len() > 0
                })
            },
            Event::Fireproof { .. } => true,
            Event::Soundproof { resists: _, tangled, reductions } => world.has_player(*tangled)
                && reductions.len() >= 25,
            Event::Shelled { .. } => bt.batter_index < usize::MAX,
            Event::HitByPitch { target, hbp_type } => {
                *hbp_type <= 1 && world.has_player(*target) && (match bt.batter {
                    Some(b) => world.has_player(b),
                    None => false,
                }) && can_close(game, world, &game.runners)
            },
            Event::IncinerationWithChain { target, replacement, chain } => can_burn(
                world,
                *target,
                replacement,
            ) && (match chain {
                Some(c) => world.has_player(*c),
                None => true,
            }),
            Event::PeckedFree { player } => world.has_player(*player),
            Event::Zap { batter } => if *batter {
                game.strikes > i16::MIN
            } else {
                game.balls > i16::MIN
            },
        }
    }

    /// Applies the event if it can be applied, and says whether it did.
    pub fn try_apply(&self, game: &mut Game, world: &mut World) -> (done: bool)
        ensures
            done == can_apply(self@, old(game)@, old(world)@),
            done ==> (final(game)@, final(world)@) == after_event(
                self@,
                old(game)@,
                old(world)@,
            ),
            !done ==> final(game)@ == old(game)@ && final(world)@ == old(world)@,
    {
        if self.can_be_applied(game, world) {
            self.apply(game, world);
            true
        } else {
            false
        }
    }
}

/// Whether the batter and the pitcher are set and known to the world.
pub fn is_battery_known(game: &Game, world: &World) -> (b: bool)
    ensures
        b == battery_known(game@, world@),
{
    match game.scoreboard.batting_team().batter {
        Some(batter) => world.has_player(batter) && world.has_player(
            game.scoreboard.pitching_team().pitcher,
        ),
        None => false,
    }
}

/// Whether the batter phase can run.
fn batter_can_be_picked(game: &Game, world: &World) -> (b: bool)
    ensures
        b == can_pick_batter(game@, world@),
{
    let bt = game.scoreboard.batting_team();
    if bt.batter.is_some() {
        return true;
    }
    if !world.has_team(bt.id) {
        return false;
    }
    let team = world.team(bt.id);
    if team.lineup.len() == 0 {
        return false;
    }
    let switched = crate::sim::has_just_switched(game);
    let first = game.events.len() == 0 || (bt.batter_index == 0 && game.inning == 1 && switched);
    if !first && bt.batter_index == 0 {
        return false;
    }
    are_known(world, &team.lineup)
}

/// Whether an eclipse can run in the state of the generator.
fn eclipse_can_run(game: &Game, world: &World, rng: &Rng) -> (b: bool)
    ensures
        b == can_eclipse(game@, world@, rng@),
{
    if !can_pick_now(game, world, PickRule::OffBase, true) {
        return false;
    }
    let mut peek = *rng;
    let incin_roll = peek.next();
    let target = game.pick_player_weighted(world, peek.next(), PickRule::OffBase, true);
    if !world.has_player(target) {
        return false;
    }
    let mods = &world.player(target).mods;
    if mods.has(Mod::Unstable) && incin_roll < UNSTABLE_INCINERATION_CHANCE && !mods.has(
        Mod::Fireproof,
    ) {
        if !can_pick_now(game, world, PickRule::OtherTeam(target), false) {
            return false;
        }
        let chain = game.pick_player_weighted(
            world,
            peek.next(),
            PickRule::OtherTeam(target),
            false,
        );
        world.has_player(chain)
    } else {
        true
    }
}

/// Whether feedback weather can run in the state of the generator.
fn feedback_can_run(game: &Game, world: &World, rng: &Rng) -> (b: bool)
    ensures
        b == can_feedback(game@, world@, rng@),
{
    let batter = match game.scoreboard.batting_team().batter {
        Some(b) => b,
        None => {
            return false;
        },
    };
    let pitcher = game.scoreboard.pitching_team().pitcher;
    if !world.has_player(batter) || !world.has_player(pitcher) {
        return false;
    }
    let mut peek = *rng;
    let is_batter = peek.next() < FEEDBACK_BATTER_CHANCE;
    let feedback_roll = peek.next();
    let looked_at = if is_batter {
        batter
    } else {
        pitcher
    };
    let strikes = (world.player(looked_at).mods.has(Mod::Flickering) && feedback_roll
        < FLICKERING_FEEDBACK_CHANCE) || feedback_roll < FEEDBACK_CHANCE;
    if !strikes {
        return true;
    }
    let side = if is_batter {
        game.scoreboard.pitching_team().id
    } else {
        game.scoreboard.batting_team().id
    };
    if !world.has_team(side) {
        return false;
    }
    let team = world.team(side);
    let list = if is_batter {
        &team.lineup
    } else {
        &team.rotation
    };
    if list.len() == 0 {
        return false;
    }
    let other = list[pick_index(peek.next(), list.len())];
    world.has_player(other)
}

/// Whether the lineup and the rotation of the team can be counted
/// together.
fn roster_fits(world: &World, team: u128) -> (b: bool)
    requires
        world@.teams.contains_key(team),
    ensures
        b == (world@.teams[team].lineup.len() + world@.teams[team].rotation.len() <= usize::MAX),
{
    let t = world.team(team);
    t.lineup.len().checked_add(t.rotation.len()).is_some()
}

/// Whether the weather phase can run in the state of the generator.
pub fn weather_can_run(game: &Game, world: &World, rng: &Rng) -> (b: bool)
    ensures
        b == can_weather(game@, world@, rng@),
{
    match game.weather {
        Weather::Eclipse => eclipse_can_run(game, world, rng),
        Weather::Peanuts => {
            let mut peek = *rng;
            !(peek.next() < PEANUT_CHANCE) || can_pick_now(game, world, PickRule::OffBase, true)
        },
        Weather::Birds => are_rosters_known(game, world),
        Weather::Feedback => feedback_can_run(game, world, rng),
        Weather::Reverb => are_rosters_known(game, world) && roster_fits(
            world,
            game.scoreboard.home_team.id,
        ) && roster_fits(world, game.scoreboard.away_team.id),
        Weather::Blooddrain => {
            let ft = game.scoreboard.pitching_team().id;
            game.scoreboard.batting_team().batter.is_some() && world.has_team(ft) && world.team(
                ft,
            ).lineup.len() > 0 && (game.runners.empty() || can_pick_now(
                game,
                world,
                PickRule::AtBatOrOnBase,
                true,
            ))
        },
        Weather::Night => {
            let home = game.scoreboard.home_team.id;
            let away = game.scoreboard.away_team.id;
            world.has_team(home) && world.has_team(away) && world.team(home).shadows.len() > 0
                && world.team(away).shadows.len() > 0
        },
        _ => true,
    }
}

/// Whether a pitch can be resolved.
pub fn pitch_can_run(game: &Game, world: &World, thresholds: &PitchThresholds) -> (b: bool)
    ensures
        b == can_pitch(game@, world@, thresholds@),
{
    let bt = game.scoreboard.batting_team().id;
    let ft = game.scoreboard.pitching_team().id;
    is_battery_known(game, world) && world.has_team(bt) && world.has_team(ft) && world.team(
        ft,
    ).lineup.len() > 0 && thresholds.fits(world.team(ft).lineup.len(), game.runners.runners.len())
        && are_bases_below(&game.runners, 250) && game.balls < i16::MAX && game.strikes
        < i16::MAX
}

/// Whether the phase can run in the state of the generator.
pub fn phase_can_run(
    p: Plugin,
    game: &Game,
    world: &World,
    rng: &Rng,
    thresholds: &PitchThresholds,
) -> (b: bool)
    ensures
        b == can_run_phase(p, game@, world@, thresholds@, rng@),
{
    match p {
        Plugin::InningState => game.inning < i16::MAX,
        Plugin::ExtraWeather => match game.weather {
            Weather::Salmon => game.linescore_away.len() > 0 && game.linescore_home.len() > 0,
            _ => true,
        },
        Plugin::BatterState => batter_can_be_picked(game, world),
        Plugin::Weather => weather_can_run(game, world, rng),
        Plugin::Modifier => is_battery_known(game, world),
        Plugin::Stealing => true,
        Plugin::Base => pitch_can_run(game, world, thresholds),
    }
}

/// The event of the tick, if the tick can be taken.  The generator moves
/// only if it can.
pub fn try_next(game: &Game, world: &World, rng: &mut Rng, thresholds: &PitchThresholds) -> (r:
    Option<Event>)
    ensures
        r is Some <==> can_tick(game@, world@, thresholds@, old(rng)@),
        r matches Some(e) ==> e@ == tick_event(
            game@,
            world@,
            thresholds@,
            old(rng)@,
            replacement_id(r),
        ).0 && final(rng)@ == tick_event(
            game@,
            world@,
            thresholds@,
            old(rng)@,
            replacement_id(r),
        ).1,
        r is None ==> final(rng)@ == old(rng)@,
{
    let mut trial = *rng;
    let order = [
        Plugin::InningState,
        Plugin::ExtraWeather,
        Plugin::BatterState,
        Plugin::Weather,
        Plugin::Modifier,
        Plugin::Stealing,
        Plugin::Base,
    ];
    assert(order@ =~= phases());
    let mut k: usize = 0;
    while k < 7
        invariant
            k <= 7,
            rng@ == old(rng)@,
            order@ == phases(),
            can_tick(game@, world@, thresholds@, old(rng)@) <==> can_tick_from(
                k as int,
                game@,
                world@,
                thresholds@,
                trial@,
            ),
            k == 7 ==> !can_tick(game@, world@, thresholds@, old(rng)@),
            forall|fresh: u128|
                tick_event(game@, world@, thresholds@, old(rng)@, fresh) == #[trigger] tick_from(
                    k as int,
                    game@,
                    world@,
                    thresholds@,
                    trial@,
                    fresh,
                ),
        decreases 7 - k,
    {
        let ghost s = trial@;
        assert(order@[k as int] == phases()[k as int]);
        if !phase_can_run(order[k], game, world, &trial, thresholds) {
            return None;
        }
        let r = order[k].tick(game, world, &mut trial, thresholds);
        proof {
            lemma_phase_fresh(order@[k as int], game@, world@, thresholds@, s, replacement_id(r));
        }
        match r {
            Some(e) => {
                proof {
                    let fresh = replacement_id(r);
                    assert(tick_event(game@, world@, thresholds@, old(rng)@, fresh) == tick_from(
                        k as int,
                        game@,
                        world@,
                        thresholds@,
                        s,
                        fresh,
                    ));
                    assert(phase_event(phases()[k as int], game@, world@, thresholds@, s, fresh).0
                        == Some(e@));
                }
                *rng = trial;
                return Some(e);
            },
            None => {},
        }
        proof {
            assert(k < 6);
            assert forall|fresh: u128|
                tick_event(game@, world@, thresholds@, old(rng)@, fresh) == #[trigger] tick_from(
                    k + 1,
                    game@,
                    world@,
                    thresholds@,
                    trial@,
                    fresh,
                ) by {
                lemma_phase_fresh(order@[k as int], game@, world@, thresholds@, s, fresh);
                assert(tick_event(game@, world@, thresholds@, old(rng)@, fresh) == tick_from(
                    k as int,
                    game@,
                    world@,
                    thresholds@,
                    s,
                    fresh,
                ));
            }
        }
        k += 1;
    }
    None
}

/// Takes one tick of the game: gives its event and applies it.  Gives
/// nothing, and changes nothing, if the tick cannot be taken or its event
/// cannot be applied.
pub fn advance(game: &mut Game, world: &mut World, rng: &mut Rng, thresholds: &PitchThresholds) -> (r:
    Option<Event>)
    ensures
        r is Some <==> can_tick(old(game)@, old(world)@, thresholds@, old(rng)@) && can_apply(
            tick_event(old(game)@, old(world)@, thresholds@, old(rng)@, 0).0,
            old(game)@,
            old(world)@,
        ),
        r matches Some(e) ==> {
            let t = tick_event(old(game)@, old(world)@, thresholds@, old(rng)@, replacement_id(r));
            &&& e@ == t.0
            &&& final(rng)@ == t.1
            &&& (final(game)@, final(world)@) == after_event(t.0, old(game)@, old(world)@)
        },
        r is None ==> final(game)@ == old(game)@ && final(world)@ == old(world)@ && final(rng)@
            == old(rng)@,
{
    let before = *rng;
    match try_next(game, world, rng, thresholds) {
        Some(e) => {
            proof {
                lemma_applicable_whatever_replacement(
                    game@,
                    world@,
                    thresholds@,
                    before@,
                    replacement_id(Some(e)),
                );
            }
            if e.try_apply(game, world) {
                Some(e)
            } else {
                *rng = before;
                None
            }
        },
        None => None,
    }
}

/// Whether the event of a tick can be applied does not depend on the
/// identity that a replacement gets.
pub proof fn lemma_applicable_whatever_replacement(
    g: GameView,
    w: WorldView,
    t: crate::formulas::PitchThresholdsView,
    s: crate::rng::RngState,
    fresh: u128,
)
    ensures
        can_apply(tick_event(g, w, t, s, fresh).0, g, w) == can_apply(
            tick_event(g, w, t, s, 0).0,
            g,
            w,
        ),
{
    lemma_applicable_from(0, g, w, t, s, fresh);
}

/// The same, for the phases from `k` on.
pub proof fn lemma_applicable_from(
    k: int,
    g: GameView,
    w: WorldView,
    t: crate::formulas::PitchThresholdsView,
    s: crate::rng::RngState,
    fresh: u128,
)
    ensures
        can_apply(tick_from(k, g, w, t, s, fresh).0, g, w) == can_apply(
            tick_from(k, g, w, t, s, 0).0,
            g,
            w,
        ),
    decreases 7 - k,
{
    if 0 <= k < 6 {
        lemma_phase_fresh(phases()[k], g, w, t, s, fresh);
        let r = phase_event(phases()[k], g, w, t, s, fresh);
        if r.0 is None {
            lemma_applicable_from(k + 1, g, w, t, r.1, fresh);
        } else {
            lemma_phase_applicable(phases()[k], g, w, t, s, fresh);
        }
    }
}

/// The same, for one phase.
pub proof fn lemma_phase_applicable(
    p: Plugin,
    g: GameView,
    w: WorldView,
    t: crate::formulas::PitchThresholdsView,
    s: crate::rng::RngState,
    fresh: u128,
)
    requires
        phase_event(p, g, w, t, s, fresh).0 is Some,
        phase_event(p, g, w, t, s, 0).0 is Some,
    ensures
        can_apply(phase_event(p, g, w, t, s, fresh).0->0, g, w) == can_apply(
            phase_event(p, g, w, t, s, 0).0->0,
            g,
            w,
        ),
{
    if p == Plugin::Weather && g.weather == Weather::Eclipse {
        let a = phase_event(p, g, w, t, s, fresh).0->0;
        let b = phase_event(p, g, w, t, s, 0).0->0;
        match (a, b) {
            (
                EventView::Incineration { target, replacement: ra },
                EventView::Incineration { replacement: rb, .. },
            ) => {
                lemma_burn_whatever_replacement(w, target, ra, rb);
            },
            (
                EventView::IncinerationWithChain { target, replacement: ra, .. },
                EventView::IncinerationWithChain { replacement: rb, .. },
            ) => {
                lemma_burn_whatever_replacement(w, target, ra, rb);
            },
            _ => {},
        }
    }
}

/// Whether a player can be incinerated does not depend on the
/// replacement.
pub proof fn lemma_burn_whatever_replacement(
    w: WorldView,
    target: u128,
    a: crate::entities::PlayerView,
    b: crate::entities::PlayerView,
)
    ensures
        can_incinerate(w, target, a) == can_incinerate(w, target, b),
{
    let wa = with_replacement(w, target, a);
    let wb = with_replacement(w, target, b);
    if w.players.contains_key(target) && w.players[target].team is Some {
        assert(wa.players[target].team == w.players[target].team);
        assert(wb.players[target].team == w.players[target].team);
    }
}

} // verus!
