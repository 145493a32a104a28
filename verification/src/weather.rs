//! The weather phase of the tick: what each weather may do to a game.

use vstd::prelude::*;
use crate::bases::contains_runner;
use crate::entities::{Player, rolled_player, World, WorldView};
use crate::events::{Event, EventView, same_event};
use crate::formulas::{
    BIRDS_CHANCE, BLOODDRAIN_CHANCE, EVEN_CHANCE, FEEDBACK_BATTER_CHANCE, FEEDBACK_CHANCE,
    FLICKERING_FEEDBACK_CHANCE, INCINERATION_CHANCE, NIGHT_SHIFT_BOOST_PER_DRAW,
    NIGHT_SHIFT_CHANCE, PEANUT_CHANCE, PECKED_FREE_CHANCE, POLARITY_CHANCE, REVERB_ALL_CUT,
    REVERB_CHANCE, REVERB_LINEUP_CUT, REVERB_PAIRS_CUT, SOUNDPROOF_LOSS_PER_DRAW,
    UNSTABLE_INCINERATION_CHANCE,
};
use crate::game::{fielder_for, Game, GameView, SUN_LIMIT, Weather};
use crate::mods::{lemma_filter_take_step, Mod, seq_has_mod};
use crate::reverb::{indices, player_on, rolled_changes};
use crate::rng::{draw, draw_index, DRAW_SPAN, pick_index, Rng, RngState, skip, step_state};
use crate::sim::roll;

verus! {

/// Which of the players of a game may be picked.
#[derive(Debug, Clone, Copy, PartialEq, Eq, Structural)]
pub enum PickRule {
    /// The players who are not on base.
    OffBase,
    /// The players who are on another team than the given player.
    OtherTeam(u128),
    /// The batter and the players who are on base.
    AtBatOrOnBase,
}

/// The players of a game from whom one is picked: both lineups, the home
/// team's first, and then either the two pitchers of the game or both
/// rotations.
pub open spec fn candidates(g: GameView, w: WorldView, only_current: bool) -> Seq<u128> {
    let home = w.teams[g.scoreboard.home_team.id];
    let away = w.teams[g.scoreboard.away_team.id];
    home.lineup + away.lineup + (if only_current {
        seq![g.scoreboard.home_team.pitcher, g.scoreboard.away_team.pitcher]
    } else {
        home.rotation + away.rotation
    })
}

/// The test that a rule admits a player.
pub open spec fn admits(rule: PickRule, g: GameView, w: WorldView) -> spec_fn(u128) -> bool {
    |id: u128|
        match rule {
            PickRule::OffBase => !contains_runner(g.runners, id),
            PickRule::OtherTeam(other) => w.players[id].team->0 != w.players[other].team->0,
            PickRule::AtBatOrOnBase => g.scoreboard.batting().batter == Some(id) || contains_runner(
                g.runners,
                id,
            ),
        }
}

/// The candidates whom the rule admits.
pub open spec fn eligible(g: GameView, w: WorldView, rule: PickRule, only_current: bool) -> Seq<
    u128,
> {
    candidates(g, w, only_current).filter(admits(rule, g, w))
}

/// The player whom the draw `m` picks among the candidates whom the rule
/// admits.
pub open spec fn picked(
    g: GameView,
    w: WorldView,
    m: u64,
    rule: PickRule,
    only_current: bool,
) -> u128 {
    let e = eligible(g, w, rule, only_current);
    e[draw_index(m, e.len()) as int]
}

/// What has to hold for a pick: both teams are known, somebody is
/// eligible, and for the rule of the other team every candidate and the
/// given player are known and on teams.
pub open spec fn can_pick(g: GameView, w: WorldView, rule: PickRule, only_current: bool) -> bool {
    &&& w.teams.contains_key(g.scoreboard.home_team.id)
    &&& w.teams.contains_key(g.scoreboard.away_team.id)
    &&& eligible(g, w, rule, only_current).len() > 0
    &&& rule matches PickRule::OtherTeam(other) ==> {
        &&& w.players.contains_key(other)
        &&& w.players[other].team is Some
        &&& forall|i: int|
            0 <= i < candidates(g, w, only_current).len() ==> w.players.contains_key(
                #[trigger] candidates(g, w, only_current)[i],
            ) && w.players[candidates(g, w, only_current)[i]].team is Some
    }
}

/// The players of both teams who carry the badge `m`: each team's lineup
/// and then its rotation, the home team first.
pub open spec fn carriers(g: GameView, w: WorldView, m: Mod) -> Seq<u128> {
    let home = w.teams[g.scoreboard.home_team.id];
    let away = w.teams[g.scoreboard.away_team.id];
    (home.lineup + home.rotation + away.lineup + away.rotation).filter(carries(w, m))
}

/// The test that a player carries the badge `m`.
pub open spec fn carries(w: WorldView, m: Mod) -> spec_fn(u128) -> bool {
    |id: u128| seq_has_mod(w.players[id].mods, m)
}

/// Whether the world knows both teams of the game and every player of
/// their lineups and rotations.
pub open spec fn rosters_known(g: GameView, w: WorldView) -> bool {
    let home = w.teams[g.scoreboard.home_team.id];
    let away = w.teams[g.scoreboard.away_team.id];
    let all = home.lineup + home.rotation + away.lineup + away.rotation;
    &&& w.teams.contains_key(g.scoreboard.home_team.id)
    &&& w.teams.contains_key(g.scoreboard.away_team.id)
    &&& forall|i: int| 0 <= i < all.len() ==> w.players.contains_key(#[trigger] all[i])
}

/// Whether the world knows every player of `ids`.
pub fn are_known(world: &World, ids: &Vec<u128>) -> (b: bool)
    ensures
        b == (forall|i: int| 0 <= i < ids@.len() ==> world@.players.contains_key(#[trigger] ids@[i])),
{
    let mut i: usize = 0;
    while i < ids.len()
        invariant
            i <= ids.len(),
            forall|j: int| 0 <= j < i ==> world@.players.contains_key(#[trigger] ids@[j]),
        decreases ids.len() - i,
    {
        if !world.has_player(ids[i]) {
            return false;
        }
        i += 1;
    }
    true
}

/// Whether the world knows both teams of the game and every player of
/// their lineups and rotations.
pub fn are_rosters_known(game: &Game, world: &World) -> (b: bool)
    ensures
        b == rosters_known(game@, world@),
{
    if !world.has_team(game.scoreboard.home_team.id) || !world.has_team(
        game.scoreboard.away_team.id,
    ) {
        return false;
    }
    let home_team = world.team(game.scoreboard.home_team.id);
    let away_team = world.team(game.scoreboard.away_team.id);
    let mut all: Vec<u128> = Vec::new();
    append_ids(&mut all, &home_team.lineup);
    append_ids(&mut all, &home_team.rotation);
    append_ids(&mut all, &away_team.lineup);
    append_ids(&mut all, &away_team.rotation);
    assert(all@ =~= home_team@.lineup + home_team@.rotation + away_team@.lineup
        + away_team@.rotation);
    are_known(world, &all)
}

/// Twenty-six boosts, each `per_draw` attribute units for each step of one
/// of the next 26 draws.
pub open spec fn random_boosts(s: RngState, per_draw: i64) -> Seq<i64> {
    Seq::new(26, |k: int| (draw(s, k as nat) * per_draw) as i64)
}

/// Appends `from` to `to`.
fn append_ids(to: &mut Vec<u128>, from: &Vec<u128>)
    ensures
        final(to)@ == old(to)@ + from@,
{
    let mut i: usize = 0;
    assert(to@ =~= old(to)@ + from@.take(0));
    while i < from.len()
        invariant
            i <= from.len(),
            to@ == old(to)@ + from@.take(i as int),
        decreases from.len() - i,
    {
        to.push(from[i]);
        assert(to@ =~= old(to)@ + from@.take(i + 1));
        i += 1;
    }
    assert(from@.take(from@.len() as int) =~= from@);
}

/// Whether the rule admits the player.
fn rule_admits(game: &Game, world: &World, rule: PickRule, id: u128) -> (b: bool)
    requires
        rule matches PickRule::OtherTeam(other) ==> world@.players.contains_key(other)
            && world@.players[other].team is Some && world@.players.contains_key(id)
            && world@.players[id].team is Some,
    ensures
        b == admits(rule, game@, world@)(id),
{
    match rule {
        PickRule::OffBase => !game.runners.contains(id),
        PickRule::OtherTeam(other) => world.player(id).team.unwrap() != world.player(
            other,
        ).team.unwrap(),
        PickRule::AtBatOrOnBase => game.scoreboard.batting_team().batter == Some(id)
            || game.runners.contains(id),
    }
}

/// The players of a game from whom one is picked.
pub fn candidates_of(game: &Game, world: &World, only_current: bool) -> (all: Vec<u128>)
    requires
        world@.teams.contains_key(game@.scoreboard.home_team.id),
        world@.teams.contains_key(game@.scoreboard.away_team.id),
    ensures
        all@ == candidates(game@, world@, only_current),
{
    let home_team = world.team(game.scoreboard.home_team.id);
    let away_team = world.team(game.scoreboard.away_team.id);
    let mut all: Vec<u128> = Vec::new();
    append_ids(&mut all, &home_team.lineup);
    append_ids(&mut all, &away_team.lineup);
    if only_current {
        all.push(game.scoreboard.home_team.pitcher);
        all.push(game.scoreboard.away_team.pitcher);
    } else {
        append_ids(&mut all, &home_team.rotation);
        append_ids(&mut all, &away_team.rotation);
    }
    assert(all@ =~= candidates(game@, world@, only_current));
    all
}

/// Whether the rule of the other team can be asked of every candidate:
/// the given player and every candidate are known and on teams.
pub open spec fn rule_is_defined(g: GameView, w: WorldView, rule: PickRule, only_current: bool) -> bool {
    rule matches PickRule::OtherTeam(other) ==> {
        &&& w.players.contains_key(other)
        &&& w.players[other].team is Some
        &&& forall|i: int|
            0 <= i < candidates(g, w, only_current).len() ==> w.players.contains_key(
                #[trigger] candidates(g, w, only_current)[i],
            ) && w.players[candidates(g, w, only_current)[i]].team is Some
    }
}

/// The candidates whom the rule admits.
pub fn eligible_of(game: &Game, world: &World, rule: PickRule, only_current: bool) -> (kept: Vec<
    u128,
>)
    requires
        world@.teams.contains_key(game@.scoreboard.home_team.id),
        world@.teams.contains_key(game@.scoreboard.away_team.id),
        rule_is_defined(game@, world@, rule, only_current),
    ensures
        kept@ == eligible(game@, world@, rule, only_current),
{
    let all = candidates_of(game, world, only_current);
    let ghost pred = admits(rule, game@, world@);
    let mut kept: Vec<u128> = Vec::new();
    let mut i: usize = 0;
    proof {
        reveal(Seq::filter);
        assert(all@.take(0) =~= Seq::<u128>::empty());
    }
    while i < all.len()
        invariant
            i <= all.len(),
            all@ == candidates(game@, world@, only_current),
            rule_is_defined(game@, world@, rule, only_current),
            pred == admits(rule, game@, world@),
            kept@ == all@.take(i as int).filter(pred),
        decreases all.len() - i,
    {
        proof {
            lemma_filter_take_step(all@, pred, i as int);
        }
        if rule_admits(game, world, rule, all[i]) {
            kept.push(all[i]);
        }
        i += 1;
    }
    assert(all@.take(i as int) =~= all@);
    kept
}

/// Whether a player can be picked by the rule.
pub fn can_pick_now(game: &Game, world: &World, rule: PickRule, only_current: bool) -> (b: bool)
    ensures
        b == can_pick(game@, world@, rule, only_current),
{
    if !world.has_team(game.scoreboard.home_team.id) || !world.has_team(
        game.scoreboard.away_team.id,
    ) {
        return false;
    }
    match rule {
        PickRule::OtherTeam(other) => {
            if !world.has_player(other) || world.player(other).team.is_none() {
                return false;
            }
            let all = candidates_of(game, world, only_current);
            let mut i: usize = 0;
            while i < all.len()
                invariant
                    i <= all.len(),
                    rule == PickRule::OtherTeam(other),
                    all@ == candidates(game@, world@, only_current),
                    forall|j: int|
                        0 <= j < i ==> world@.players.contains_key(#[trigger] all@[j])
                            && world@.players[all@[j]].team is Some,
                decreases all.len() - i,
            {
                if !world.has_player(all[i]) || world.player(all[i]).team.is_none() {
                    assert(candidates(game@, world@, only_current)[i as int] == all@[i as int]);
                    return false;
                }
                i += 1;
            }
        },
        _ => {},
    }
    eligible_of(game, world, rule, only_current).len() > 0
}

impl Game {
    /// The player whom the draw `roll` picks among the players of the
    /// game whom the rule admits.
    pub fn pick_player_weighted(
        &self,
        world: &World,
        roll: u64,
        rule: PickRule,
        only_current: bool,
    ) -> (id: u128)
        requires
            roll < DRAW_SPAN,
            can_pick(self@, world@, rule, only_current),
        ensures
            id == picked(self@, world@, roll, rule, only_current),
            eligible(self@, world@, rule, only_current).contains(id),
    {
        let kept = eligible_of(self, world, rule, only_current);
        let idx = pick_index(roll, kept.len());
        kept[idx]
    }
}

/// The players of both teams who carry the badge `m`.
pub fn poll_for_mod(game: &Game, world: &World, m: Mod) -> (players: Vec<u128>)
    requires
        rosters_known(game@, world@),
    ensures
        players@ == carriers(game@, world@, m),
{
    let home_team = world.team(game.scoreboard.home_team.id);
    let away_team = world.team(game.scoreboard.away_team.id);
    let mut all: Vec<u128> = Vec::new();
    append_ids(&mut all, &home_team.lineup);
    append_ids(&mut all, &home_team.rotation);
    append_ids(&mut all, &away_team.lineup);
    append_ids(&mut all, &away_team.rotation);
    let ghost pred = carries(world@, m);
    let mut kept: Vec<u128> = Vec::new();
    let mut i: usize = 0;
    proof {
        reveal(Seq::filter);
        assert(all@.take(0) =~= Seq::<u128>::empty());
    }
    while i < all.len()
        invariant
            i <= all.len(),
            rosters_known(game@, world@),
            all@ == world@.teams[game@.scoreboard.home_team.id].lineup
                + world@.teams[game@.scoreboard.home_team.id].rotation
                + world@.teams[game@.scoreboard.away_team.id].lineup
                + world@.teams[game@.scoreboard.away_team.id].rotation,
            pred == carries(world@, m),
            kept@ == all@.take(i as int).filter(pred),
        decreases all.len() - i,
    {
        proof {
            lemma_filter_take_step(all@, pred, i as int);
        }
        if world.player(all[i]).mods.has(m) {
            kept.push(all[i]);
        }
        i += 1;
    }
    assert(all@.take(i as int) =~= all@);
    kept
}

/// Rolls 26 boosts.
pub fn roll_random_boosts(rng: &mut Rng, per_draw: i64) -> (boosts: Vec<i64>)
    requires
        -1000 <= per_draw <= 1000,
    ensures
        boosts@ == random_boosts(old(rng)@, per_draw),
        final(rng)@ == skip(old(rng)@, 26),
{
    let mut boosts: Vec<i64> = Vec::new();
    while boosts.len() < 26
        invariant
            boosts.len() <= 26,
            -1000 <= per_draw <= 1000,
            rng@ == skip(old(rng)@, boosts.len() as nat),
            forall|k: int|
                0 <= k < boosts.len() ==> boosts@[k] == (draw(old(rng)@, k as nat) * per_draw) as i64,
        decreases 26 - boosts.len(),
    {
        let m = rng.next();
        assert(-0x10_0000_0000_0000 * 1000 <= m * per_draw <= 0x10_0000_0000_0000 * 1000)
            by (nonlinear_arith)
            requires
                0 <= m < 0x10_0000_0000_0000u64,
                -1000 <= per_draw <= 1000,
        ;
        boosts.push((m as i64) * per_draw);
    }
    assert(boosts@ =~= random_boosts(old(rng)@, per_draw));
    boosts
}

/// What an eclipse gives, and the state in which it leaves the generator.
/// The first draw is the roll of the fire, the second picks a target among
/// the players of the game who are not on base.  An unstable target burns
/// on a roll below the chance of the unstable, and the instability then
/// jumps to a player of the other team, picked by a third draw, unless
/// that player is stable; any target burns on a roll below the plain
/// chance.  A fireproof target does not burn.  The replacement is rolled
/// last, under the identity `fresh`.
pub open spec fn eclipse_event(g: GameView, w: WorldView, s: RngState, fresh: u128) -> (
    Option<EventView>,
    RngState,
) {
    let s1 = step_state(s);
    let s2 = step_state(s1);
    let s3 = step_state(s2);
    let target = picked(g, w, roll(s1), PickRule::OffBase, true);
    let mods = w.players[target].mods;
    let chain_target = picked(g, w, roll(s2), PickRule::OtherTeam(target), false);
    if seq_has_mod(mods, Mod::Unstable) && roll(s) < UNSTABLE_INCINERATION_CHANCE {
        if seq_has_mod(mods, Mod::Fireproof) {
            (Some(EventView::Fireproof { target }), s2)
        } else {
            (
                Some(
                    EventView::IncinerationWithChain {
                        target,
                        replacement: rolled_player(fresh, s3),
                        chain: if seq_has_mod(w.players[chain_target].mods, Mod::Stable) {
                            None
                        } else {
                            Some(chain_target)
                        },
                    },
                ),
                skip(s3, 26),
            )
        }
    } else if roll(s) < INCINERATION_CHANCE {
        if seq_has_mod(mods, Mod::Fireproof) {
            (Some(EventView::Fireproof { target }), s2)
        } else {
            (
                Some(EventView::Incineration { target, replacement: rolled_player(fresh, s2) }),
                skip(s2, 26),
            )
        }
    } else {
        (None, s2)
    }
}

/// What has to hold for an eclipse: a target can be picked and is known,
/// and if the instability jumps, a player of the other team can be picked
/// and is known.
pub open spec fn can_eclipse(g: GameView, w: WorldView, s: RngState) -> bool {
    let s1 = step_state(s);
    let s2 = step_state(s1);
    let target = picked(g, w, roll(s1), PickRule::OffBase, true);
    let mods = w.players[target].mods;
    &&& can_pick(g, w, PickRule::OffBase, true)
    &&& w.players.contains_key(target)
    &&& seq_has_mod(mods, Mod::Unstable) && roll(s) < UNSTABLE_INCINERATION_CHANCE && !seq_has_mod(
        mods,
        Mod::Fireproof,
    ) ==> can_pick(g, w, PickRule::OtherTeam(target), false) && w.players.contains_key(
        picked(g, w, roll(s2), PickRule::OtherTeam(target), false),
    )
}

/// The eclipse.
fn eclipse(game: &Game, world: &World, rng: &mut Rng) -> (r: Option<Event>)
    requires
        can_eclipse(game@, world@, old(rng)@),
    ensures
        same_event(r, eclipse_event(game@, world@, old(rng)@, replacement_id(r)).0),
        final(rng)@ == eclipse_event(game@, world@, old(rng)@, replacement_id(r)).1,
{
    let incin_roll = rng.next();
    let target = game.pick_player_weighted(world, rng.next(), PickRule::OffBase, true);
    let mods = &world.player(target).mods;
    if mods.has(Mod::Unstable) && incin_roll < UNSTABLE_INCINERATION_CHANCE {
        if mods.has(Mod::Fireproof) {
            return Some(Event::Fireproof { target });
        }
        let chain_target = game.pick_player_weighted(
            world,
            rng.next(),
            PickRule::OtherTeam(target),
            false,
        );
        let replacement = Player::new(rng);
        let chain = if world.player(chain_target).mods.has(Mod::Stable) {
            None
        } else {
            Some(chain_target)
        };
        Some(Event::IncinerationWithChain { target, replacement, chain })
    } else if incin_roll < INCINERATION_CHANCE {
        if mods.has(Mod::Fireproof) {
            return Some(Event::Fireproof { target });
        }
        let replacement = Player::new(rng);
        Some(Event::Incineration { target, replacement })
    } else {
        None
    }
}

/// The identity of the replacement that an event carries, or 0.
pub open spec fn replacement_id(r: Option<Event>) -> u128 {
    match r {
        Some(Event::Incineration { replacement, .. }) => replacement.id,
        Some(Event::IncinerationWithChain { replacement, .. }) => replacement.id,
        _ => 0,
    }
}

/// What peanut weather gives: on a first draw below its chance, an
/// allergic reaction of a player who is not on base, picked by a second
/// draw.
pub open spec fn peanuts_event(g: GameView, w: WorldView, s: RngState) -> (
    Option<EventView>,
    RngState,
) {
    let s1 = step_state(s);
    if roll(s) < PEANUT_CHANCE {
        (
            Some(
                EventView::Peanut {
                    target: picked(g, w, roll(s1), PickRule::OffBase, true),
                    yummy: false,
                },
            ),
            step_state(s1),
        )
    } else {
        (None, s1)
    }
}

/// Peanut weather.
fn peanuts(game: &Game, world: &World, rng: &mut Rng) -> (r: Option<Event>)
    requires
        roll(old(rng)@) < PEANUT_CHANCE ==> can_pick(game@, world@, PickRule::OffBase, true),
    ensures
        same_event(r, peanuts_event(game@, world@, old(rng)@).0),
        final(rng)@ == peanuts_event(game@, world@, old(rng)@).1,
{
    if rng.next() < PEANUT_CHANCE {
        let target = game.pick_player_weighted(world, rng.next(), PickRule::OffBase, true);
        Some(Event::Peanut { target, yummy: false })
    } else {
        None
    }
}

/// The first of the shelled players from position `k` on whom the birds
/// peck free, each on a draw of its own below the chance; and the state in
/// which the draws leave the generator.
pub open spec fn pecked(shelled: Seq<u128>, s: RngState, k: int) -> (Option<EventView>, RngState)
    decreases shelled.len() - k,
{
    if k < 0 || k >= shelled.len() {
        (None, s)
    } else if roll(s) < PECKED_FREE_CHANCE {
        (Some(EventView::PeckedFree { player: shelled[k] }), step_state(s))
    } else {
        pecked(shelled, step_state(s), k + 1)
    }
}

/// What the birds give: on a first draw below their chance, the birds;
/// else perhaps a shelled player pecked free.
pub open spec fn birds_event(g: GameView, w: WorldView, s: RngState) -> (
    Option<EventView>,
    RngState,
) {
    if roll(s) < BIRDS_CHANCE {
        (Some(EventView::Birds), step_state(s))
    } else {
        pecked(carriers(g, w, Mod::Shelled), step_state(s), 0)
    }
}

/// The birds.
fn birds(game: &Game, world: &World, rng: &mut Rng) -> (r: Option<Event>)
    requires
        rosters_known(game@, world@),
    ensures
        same_event(r, birds_event(game@, world@, old(rng)@).0),
        final(rng)@ == birds_event(game@, world@, old(rng)@).1,
{
    if rng.next() < BIRDS_CHANCE {
        return Some(Event::Birds);
    }
    let shelled_players = poll_for_mod(game, world, Mod::Shelled);
    let mut k: usize = 0;
    while k < shelled_players.len()
        invariant
            k <= shelled_players.len(),
            birds_event(game@, world@, old(rng)@) == pecked(shelled_players@, rng@, k as int),
        decreases shelled_players.len() - k,
    {
        if rng.next() < PECKED_FREE_CHANCE {
            return Some(Event::PeckedFree { player: shelled_players[k] });
        }
        k += 1;
    }
    None
}

/// Whom a feedback is about: the batter or the pitcher, and the player of
/// the other team with whom the first would change places, picked by the
/// draw `m`: a fielder for the batter, a pitcher of the batting team's
/// rotation for the pitcher.
pub open spec fn feedback_pair(g: GameView, w: WorldView, is_batter: bool, m: u64) -> (u128, u128) {
    let rotation = w.teams[g.scoreboard.batting().id].rotation;
    if is_batter {
        (g.scoreboard.batting().batter->0, fielder_for(g, w, m))
    } else {
        (g.scoreboard.fielding().pitcher, rotation[draw_index(m, rotation.len()) as int])
    }
}

/// Whether feedback strikes: always on a roll below the plain chance, and
/// on a roll below the chance of the flickering if the player whom it
/// looks at flickers.
pub open spec fn feedback_strikes(g: GameView, w: WorldView, is_batter: bool, m: u64) -> bool {
    let looked_at = if is_batter {
        g.scoreboard.batting().batter->0
    } else {
        g.scoreboard.fielding().pitcher
    };
    (seq_has_mod(w.players[looked_at].mods, Mod::Flickering) && m < FLICKERING_FEEDBACK_CHANCE)
        || m < FEEDBACK_CHANCE
}

/// What feedback weather gives, and the state in which it leaves the
/// generator.  The first draw decides whether it looks at the batter or
/// the pitcher, the second whether it strikes, the third picks the other
/// player.  If one of the two is soundproof, the first of them resists and
/// the other is tangled and loses what 26 more draws say.
pub open spec fn feedback_event(g: GameView, w: WorldView, s: RngState) -> (
    Option<EventView>,
    RngState,
) {
    let s1 = step_state(s);
    let s2 = step_state(s1);
    let s3 = step_state(s2);
    let is_batter = roll(s) < FEEDBACK_BATTER_CHANCE;
    let pair = feedback_pair(g, w, is_batter, roll(s2));
    if !feedback_strikes(g, w, is_batter, roll(s1)) {
        (None, s2)
    } else if seq_has_mod(w.players[pair.0].mods, Mod::Soundproof) {
        (
            Some(
                EventView::Soundproof {
                    resists: pair.0,
                    tangled: pair.1,
                    reductions: random_boosts(s3, SOUNDPROOF_LOSS_PER_DRAW),
                },
            ),
            skip(s3, 26),
        )
    } else if seq_has_mod(w.players[pair.1].mods, Mod::Soundproof) {
        (
            Some(
                EventView::Soundproof {
                    resists: pair.1,
                    tangled: pair.0,
                    reductions: random_boosts(s3, SOUNDPROOF_LOSS_PER_DRAW),
                },
            ),
            skip(s3, 26),
        )
    } else {
        (Some(EventView::Feedback { target1: pair.0, target2: pair.1 }), s3)
    }
}

/// What has to hold for feedback weather: batter and pitcher are known,
/// and if feedback strikes, the list from which the other player is
/// picked is not empty and the player is known.
pub open spec fn can_feedback(g: GameView, w: WorldView, s: RngState) -> bool {
    let s1 = step_state(s);
    let s2 = step_state(s1);
    let is_batter = roll(s) < FEEDBACK_BATTER_CHANCE;
    let side = if is_batter {
        g.scoreboard.fielding().id
    } else {
        g.scoreboard.batting().id
    };
    &&& g.scoreboard.batting().batter is Some
    &&& w.players.contains_key(g.scoreboard.batting().batter->0)
    &&& w.players.contains_key(g.scoreboard.fielding().pitcher)
    &&& feedback_strikes(g, w, is_batter, roll(s1)) ==> {
        &&& w.teams.contains_key(side)
        &&& is_batter ==> w.teams[side].lineup.len() > 0
        &&& !is_batter ==> w.teams[side].rotation.len() > 0
        &&& w.players.contains_key(feedback_pair(g, w, is_batter, roll(s2)).1)
    }
}

/// Feedback weather.
fn feedback(game: &Game, world: &World, rng: &mut Rng) -> (r: Option<Event>)
    requires
        can_feedback(game@, world@, old(rng)@),
    ensures
        same_event(r, feedback_event(game@, world@, old(rng)@).0),
        final(rng)@ == feedback_event(game@, world@, old(rng)@).1,
{
    let is_batter = rng.next() < FEEDBACK_BATTER_CHANCE;
    let feedback_roll = rng.next();
    let batter = game.scoreboard.batting_team().batter.unwrap();
    let pitcher = game.scoreboard.pitching_team().pitcher;
    let looked_at = if is_batter {
        batter
    } else {
        pitcher
    };
    let strikes = (world.player(looked_at).mods.has(Mod::Flickering) && feedback_roll
        < FLICKERING_FEEDBACK_CHANCE) || feedback_roll < FEEDBACK_CHANCE;
    if !strikes {
        return None;
    }
    let target1 = looked_at;
    let target2 = if is_batter {
        game.pick_fielder(world, rng.next())
    } else {
        let batting_team = world.team(game.scoreboard.batting_team().id);
        batting_team.rotation[pick_index(rng.next(), batting_team.rotation.len())]
    };
    if world.player(target1).mods.has(Mod::Soundproof) {
        let reductions = roll_random_boosts(rng, SOUNDPROOF_LOSS_PER_DRAW);
        Some(Event::Soundproof { resists: target1, tangled: target2, reductions })
    } else if world.player(target2).mods.has(Mod::Soundproof) {
        let reductions = roll_random_boosts(rng, SOUNDPROOF_LOSS_PER_DRAW);
        Some(Event::Soundproof { resists: target2, tangled: target1, reductions })
    } else {
        Some(Event::Feedback { target1, target2 })
    }
}

/// The test that the player on a slot of the team has gravity.
pub open spec fn has_gravity(w: WorldView, team: u128) -> spec_fn(usize) -> bool {
    |i: usize|
        seq_has_mod(
            w.players[player_on(w.teams[team].lineup, w.teams[team].rotation, i as int)].mods,
            Mod::Gravity,
        )
}

/// The slots of the team whose players have gravity.
pub open spec fn gravity_slots(w: WorldView, team: u128) -> Seq<usize> {
    indices(w.teams[team].lineup.len() + w.teams[team].rotation.len()).filter(has_gravity(w, team))
}

/// The kind of a reverb that the draw `m` selects: the whole team on 9
/// draws in 100, pairs on 46, the lineup on 40, the rotation on 5.
pub open spec fn reverb_kind(m: u64) -> u8 {
    if m < REVERB_ALL_CUT {
        0
    } else if m < REVERB_PAIRS_CUT {
        1
    } else if m < REVERB_LINEUP_CUT {
        2
    } else {
        3
    }
}

/// What reverb weather gives, and the state in which it leaves the
/// generator: on a first draw below its chance a reverb, whose kind a
/// second draw selects and whose team a third, the home team on an even
/// chance; the changes are rolled last.
pub open spec fn reverb_event(g: GameView, w: WorldView, s: RngState) -> (
    Option<EventView>,
    RngState,
) {
    let s1 = step_state(s);
    let s2 = step_state(s1);
    let s3 = step_state(s2);
    let team = if roll(s2) < EVEN_CHANCE {
        g.scoreboard.home_team.id
    } else {
        g.scoreboard.away_team.id
    };
    let changes = rolled_changes(
        reverb_kind(roll(s1)),
        w.teams[team].lineup.len() as int,
        w.teams[team].rotation.len() as int,
        gravity_slots(w, team),
        s3,
    );
    if roll(s) < REVERB_CHANCE {
        (
            Some(
                EventView::Reverb { reverb_type: reverb_kind(roll(s1)), team, changes: changes.0 },
            ),
            changes.1,
        )
    } else {
        (None, s1)
    }
}

/// The slots of the team whose players have gravity.
fn find_gravity(world: &World, team: u128) -> (slots: Vec<usize>)
    requires
        world@.teams.contains_key(team),
        world@.teams[team].lineup.len() + world@.teams[team].rotation.len() <= usize::MAX,
        forall|i: int|
            0 <= i < world@.teams[team].lineup.len() ==> world@.players.contains_key(
                #[trigger] world@.teams[team].lineup[i],
            ),
        forall|i: int|
            0 <= i < world@.teams[team].rotation.len() ==> world@.players.contains_key(
                #[trigger] world@.teams[team].rotation[i],
            ),
    ensures
        slots@ == gravity_slots(world@, team),
{
    let t = world.team(team);
    let n = t.lineup.len() + t.rotation.len();
    let ghost all = indices(n as nat);
    let ghost pred = has_gravity(world@, team);
    let mut slots: Vec<usize> = Vec::new();
    let mut i: usize = 0;
    proof {
        reveal(Seq::filter);
        assert(all.take(0) =~= Seq::<usize>::empty());
    }
    while i < n
        invariant
            i <= n,
            n == t@.lineup.len() + t@.rotation.len(),
            t@ == world@.teams[team],
            all == indices(n as nat),
            pred == has_gravity(world@, team),
            slots@ == all.take(i as int).filter(pred),
            forall|i: int|
                0 <= i < world@.teams[team].lineup.len() ==> world@.players.contains_key(
                    #[trigger] world@.teams[team].lineup[i],
                ),
            forall|i: int|
                0 <= i < world@.teams[team].rotation.len() ==> world@.players.contains_key(
                    #[trigger] world@.teams[team].rotation[i],
                ),
        decreases n - i,
    {
        proof {
            lemma_filter_take_step(all, pred, i as int);
        }
        let id = if i < t.lineup.len() {
            t.lineup[i]
        } else {
            t.rotation[i - t.lineup.len()]
        };
        if world.player(id).mods.has(Mod::Gravity) {
            slots.push(i);
        }
        i += 1;
    }
    assert(all.take(n as int) =~= all);
    slots
}

/// What has to hold for reverb weather: both teams are known, with the
/// players of their lineups and rotations.
pub open spec fn can_reverb_weather(g: GameView, w: WorldView) -> bool {
    &&& rosters_known(g, w)
    &&& w.teams[g.scoreboard.home_team.id].lineup.len() + w.teams[g.scoreboard.home_team.id].rotation.len()
        <= usize::MAX
    &&& w.teams[g.scoreboard.away_team.id].lineup.len() + w.teams[g.scoreboard.away_team.id].rotation.len()
        <= usize::MAX
}

/// The players of the lineup and the rotation of a team of the game are
/// known.
proof fn lemma_roster_known(g: GameView, w: WorldView, team: u128)
    requires
        rosters_known(g, w),
        team == g.scoreboard.home_team.id || team == g.scoreboard.away_team.id,
    ensures
        forall|i: int|
            0 <= i < w.teams[team].lineup.len() ==> w.players.contains_key(
                #[trigger] w.teams[team].lineup[i],
            ),
        forall|i: int|
            0 <= i < w.teams[team].rotation.len() ==> w.players.contains_key(
                #[trigger] w.teams[team].rotation[i],
            ),
{
    let h = w.teams[g.scoreboard.home_team.id];
    let a = w.teams[g.scoreboard.away_team.id];
    let all = h.lineup + h.rotation + a.lineup + a.rotation;
    assert forall|i: int| 0 <= i < h.lineup.len() implies w.players.contains_key(
        #[trigger] h.lineup[i],
    ) by {
        assert(all[i] == h.lineup[i]);
    }
    assert forall|i: int| 0 <= i < h.rotation.len() implies w.players.contains_key(
        #[trigger] h.rotation[i],
    ) by {
        assert(all[h.lineup.len() + i] == h.rotation[i]);
    }
    assert forall|i: int| 0 <= i < a.lineup.len() implies w.players.contains_key(
        #[trigger] a.lineup[i],
    ) by {
        assert(all[h.lineup.len() + h.rotation.len() + i] == a.lineup[i]);
    }
    assert forall|i: int| 0 <= i < a.rotation.len() implies w.players.contains_key(
        #[trigger] a.rotation[i],
    ) by {
        assert(all[h.lineup.len() + h.rotation.len() + a.lineup.len() + i] == a.rotation[i]);
    }
}

/// Reverb weather.
fn reverb_weather(game: &Game, world: &World, rng: &mut Rng) -> (r: Option<Event>)
    requires
        can_reverb_weather(game@, world@),
    ensures
        same_event(r, reverb_event(game@, world@, old(rng)@).0),
        final(rng)@ == reverb_event(game@, world@, old(rng)@).1,
{
    if !(rng.next() < REVERB_CHANCE) {
        return None;
    }
    let reverb_type_roll = rng.next();
    let reverb_type: u8 = if reverb_type_roll < REVERB_ALL_CUT {
        0
    } else if reverb_type_roll < REVERB_PAIRS_CUT {
        1
    } else if reverb_type_roll < REVERB_LINEUP_CUT {
        2
    } else {
        3
    };
    let home = rng.next() < EVEN_CHANCE;
    let team_id = if home {
        game.scoreboard.home_team.id
    } else {
        game.scoreboard.away_team.id
    };
    proof {
        lemma_roster_known(game@, world@, team_id);
    }
    let gravity_players = find_gravity(world, team_id);
    let team = world.team(team_id);
    let changes = team.roll_reverb_changes(rng, reverb_type, &gravity_players);
    Some(Event::Reverb { reverb_type, team: team_id, changes })
}

/// What a blooddrain gives, and the state in which it leaves the
/// generator.  On a first draw below its chance, a second draw decides
/// whether the team in the field drains, and a third whether batter and
/// pitcher are the two.  If not, a fielder is picked by a draw and, if
/// there are runners, one of the batter and the runners by one more.  The
/// last draw selects the group of attributes.
pub open spec fn blooddrain_event(g: GameView, w: WorldView, s: RngState) -> (
    Option<EventView>,
    RngState,
) {
    let s1 = step_state(s);
    let s2 = step_state(s1);
    let s3 = step_state(s2);
    let s4 = step_state(s3);
    let s5 = step_state(s4);
    let fielding_drains = roll(s1) < EVEN_CHANCE;
    let batter = g.scoreboard.batting().batter->0;
    let pitcher = g.scoreboard.fielding().pitcher;
    let fielder = fielder_for(g, w, roll(s3));
    let hitter = if g.runners.len() == 0 {
        batter
    } else {
        picked(g, w, roll(s4), PickRule::AtBatOrOnBase, true)
    };
    let s_hit = if g.runners.len() == 0 {
        s4
    } else {
        s5
    };
    if !(roll(s) < BLOODDRAIN_CHANCE) {
        (None, s1)
    } else if roll(s2) < EVEN_CHANCE {
        (
            Some(
                EventView::Blooddrain {
                    drainer: if fielding_drains {
                        pitcher
                    } else {
                        batter
                    },
                    target: if fielding_drains {
                        batter
                    } else {
                        pitcher
                    },
                    stat: draw_index(roll(s3), 4) as u8,
                    siphon: false,
                    siphon_effect: -1i16,
                },
            ),
            s4,
        )
    } else {
        (
            Some(
                EventView::Blooddrain {
                    drainer: if fielding_drains {
                        fielder
                    } else {
                        hitter
                    },
                    target: if fielding_drains {
                        hitter
                    } else {
                        fielder
                    },
                    stat: draw_index(roll(s_hit), 4) as u8,
                    siphon: false,
                    siphon_effect: -1i16,
                },
            ),
            step_state(s_hit),
        )
    }
}

/// What has to hold for a blooddrain: there is a batter, the team in the
/// field is known and has a lineup, and with runners on base somebody can
/// be picked among them and the batter.
pub open spec fn can_blooddrain(g: GameView, w: WorldView) -> bool {
    &&& g.scoreboard.batting().batter is Some
    &&& w.teams.contains_key(g.scoreboard.fielding().id)
    &&& w.teams[g.scoreboard.fielding().id].lineup.len() > 0
    &&& g.runners.len() > 0 ==> can_pick(g, w, PickRule::AtBatOrOnBase, true)
}

/// The group of attributes that a draw selects for a blooddrain.
fn drain_group(m: u64) -> (stat: u8)
    requires
        m < DRAW_SPAN,
    ensures
        stat == draw_index(m, 4) as u8,
        stat < 4,
{
    let i = pick_index(m, 4);
    i as u8
}

/// The blooddrain.
fn blooddrain(game: &Game, world: &World, rng: &mut Rng) -> (r: Option<Event>)
    requires
        can_blooddrain(game@, world@),
    ensures
        same_event(r, blooddrain_event(game@, world@, old(rng)@).0),
        final(rng)@ == blooddrain_event(game@, world@, old(rng)@).1,
{
    if !(rng.next() < BLOODDRAIN_CHANCE) {
        return None;
    }
    let fielding_team_drains = rng.next() < EVEN_CHANCE;
    let is_atbat = rng.next() < EVEN_CHANCE;
    let batter = game.scoreboard.batting_team().batter.unwrap();
    let pitcher = game.scoreboard.pitching_team().pitcher;
    if is_atbat {
        let stat = drain_group(rng.next());
        Some(
            Event::Blooddrain {
                drainer: if fielding_team_drains {
                    pitcher
                } else {
                    batter
                },
                target: if fielding_team_drains {
                    batter
                } else {
                    pitcher
                },
                stat,
                siphon: false,
                siphon_effect: -1,
            },
        )
    } else {
        let fielder = game.pick_fielder(world, rng.next());
        let hitter = if game.runners.empty() {
            batter
        } else {
            game.pick_player_weighted(world, rng.next(), PickRule::AtBatOrOnBase, true)
        };
        let stat = drain_group(rng.next());
        Some(
            Event::Blooddrain {
                drainer: if fielding_team_drains {
                    fielder
                } else {
                    hitter
                },
                target: if fielding_team_drains {
                    hitter
                } else {
                    fielder
                },
                stat,
                siphon: false,
                siphon_effect: -1,
            },
        )
    }
}

/// What the night gives, and the state in which it leaves the generator:
/// on a first draw below its chance a night shift, for the batter on an
/// even chance and else for the pitcher.  A third draw picks the shadow of
/// that player's team who comes in, and 26 more the boosts.
pub open spec fn night_event(g: GameView, w: WorldView, s: RngState) -> (
    Option<EventView>,
    RngState,
) {
    let s1 = step_state(s);
    let s2 = step_state(s1);
    let s3 = step_state(s2);
    let batter = roll(s1) < EVEN_CHANCE;
    let shadows = w.teams[if batter {
        g.scoreboard.batting().id
    } else {
        g.scoreboard.fielding().id
    }].shadows;
    let idx = draw_index(roll(s2), shadows.len());
    if roll(s) < NIGHT_SHIFT_CHANCE {
        (
            Some(
                EventView::NightShift {
                    batter,
                    replacement: shadows[idx as int],
                    replacement_idx: idx as usize,
                    boosts: random_boosts(s3, NIGHT_SHIFT_BOOST_PER_DRAW),
                },
            ),
            skip(s3, 26),
        )
    } else {
        (None, s1)
    }
}

/// What has to hold for the night: both teams are known and have shadows.
pub open spec fn can_night(g: GameView, w: WorldView) -> bool {
    &&& w.teams.contains_key(g.scoreboard.home_team.id)
    &&& w.teams.contains_key(g.scoreboard.away_team.id)
    &&& w.teams[g.scoreboard.home_team.id].shadows.len() > 0
    &&& w.teams[g.scoreboard.away_team.id].shadows.len() > 0
}

/// The night.
fn night(game: &Game, world: &World, rng: &mut Rng) -> (r: Option<Event>)
    requires
        can_night(game@, world@),
    ensures
        same_event(r, night_event(game@, world@, old(rng)@).0),
        final(rng)@ == night_event(game@, world@, old(rng)@).1,
{
    if !(rng.next() < NIGHT_SHIFT_CHANCE) {
        return None;
    }
    let batter = rng.next() < EVEN_CHANCE;
    let shadows = if batter {
        &world.team(game.scoreboard.batting_team().id).shadows
    } else {
        &world.team(game.scoreboard.pitching_team().id).shadows
    };
    let replacement_idx = pick_index(rng.next(), shadows.len());
    let replacement = shadows[replacement_idx];
    let boosts = roll_random_boosts(rng, NIGHT_SHIFT_BOOST_PER_DRAW);
    Some(Event::NightShift { batter, replacement, replacement_idx, boosts })
}

/// What the second sun and the black hole give: the swallowing of ten runs
/// of the home team if it has them, else of the away team if it has them.
pub open spec fn swallowed_side(g: GameView) -> Option<bool> {
    if g.scoreboard.home_team.score >= SUN_LIMIT {
        Some(true)
    } else if g.scoreboard.away_team.score >= SUN_LIMIT {
        Some(false)
    } else {
        None
    }
}

/// What the weather phase gives, and the state in which it leaves the
/// generator.  `fresh` is the identity of the replacement, if there is one.
pub open spec fn weather_event(g: GameView, w: WorldView, s: RngState, fresh: u128) -> (
    Option<EventView>,
    RngState,
) {
    match g.weather {
        Weather::Eclipse => eclipse_event(g, w, s, fresh),
        Weather::Peanuts => peanuts_event(g, w, s),
        Weather::Birds => birds_event(g, w, s),
        Weather::Feedback => feedback_event(g, w, s),
        Weather::Reverb => reverb_event(g, w, s),
        Weather::Blooddrain => blooddrain_event(g, w, s),
        Weather::Sun2 => (
            match swallowed_side(g) {
                Some(home_team) => Some(EventView::Sun2 { home_team }),
                None => None,
            },
            s,
        ),
        Weather::BlackHole => (
            match swallowed_side(g) {
                Some(home_team) => Some(EventView::BlackHole { home_team }),
                None => None,
            },
            s,
        ),
        Weather::PolarityPlus | Weather::PolarityMinus => (
            if roll(s) < POLARITY_CHANCE {
                Some(EventView::PolaritySwitch)
            } else {
                None
            },
            step_state(s),
        ),
        Weather::Night => night_event(g, w, s),
        _ => (None, s),
    }
}

/// What has to hold for the weather phase.
pub open spec fn can_weather(g: GameView, w: WorldView, s: RngState) -> bool {
    match g.weather {
        Weather::Eclipse => can_eclipse(g, w, s),
        Weather::Peanuts => roll(s) < PEANUT_CHANCE ==> can_pick(g, w, PickRule::OffBase, true),
        Weather::Birds => rosters_known(g, w),
        Weather::Feedback => can_feedback(g, w, s),
        Weather::Reverb => can_reverb_weather(g, w),
        Weather::Blooddrain => can_blooddrain(g, w),
        Weather::Night => can_night(g, w),
        _ => true,
    }
}

/// The weather phase.
pub fn weather(game: &Game, world: &World, rng: &mut Rng) -> (r: Option<Event>)
    requires
        can_weather(game@, world@, old(rng)@),
    ensures
        same_event(r, weather_event(game@, world@, old(rng)@, replacement_id(r)).0),
        final(rng)@ == weather_event(game@, world@, old(rng)@, replacement_id(r)).1,
{
    match game.weather {
        Weather::Eclipse => eclipse(game, world, rng),
        Weather::Peanuts => peanuts(game, world, rng),
        Weather::Birds => birds(game, world, rng),
        Weather::Feedback => feedback(game, world, rng),
        Weather::Reverb => reverb_weather(game, world, rng),
        Weather::Blooddrain => blooddrain(game, world, rng),
        Weather::Sun2 => {
            if game.scoreboard.home_team.score >= SUN_LIMIT {
                Some(Event::Sun2 { home_team: true })
            } else if game.scoreboard.away_team.score >= SUN_LIMIT {
                Some(Event::Sun2 { home_team: false })
            } else {
                None
            }
        },
        Weather::BlackHole => {
            if game.scoreboard.home_team.score >= SUN_LIMIT {
                Some(Event::BlackHole { home_team: true })
            } else if game.scoreboard.away_team.score >= SUN_LIMIT {
                Some(Event::BlackHole { home_team: false })
            } else {
                None
            }
        },
        Weather::PolarityPlus | Weather::PolarityMinus => {
            if rng.next() < POLARITY_CHANCE {
                Some(Event::PolaritySwitch)
            } else {
                None
            }
        },
        Weather::Night => night(game, world, rng),
        _ => None,
    }
}

} // verus!
