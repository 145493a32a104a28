//! What holds of the rules as a whole: of the generator, of one tick of a
//! game, and of the special rules that badges bring.

use vstd::prelude::*;
use crate::bases::{
    advance_each, advance_first, advance_if_from, Baserunner, bases_below, chain_len,
    distinct_bases, first_on, moved, occupied_in, push_chain, walk_of,
};
use crate::entities::{PlayerView, runner_run_value, WorldView};
use crate::events::{
    after_event, closed_pa, EventView, inning_switch_tag, removed_first, swept, tag_of,
    with_runners,
};
use crate::formulas::PitchThresholdsView;
use crate::game::{
    after_sweep, credited, GameView, has_reached, is_short_of, max_balls, max_strikes, run_value,
    scoring, staying, team_bases,
};
use crate::mods::{Mod, ModWithLifetime, seq_has_mod, without_mod};
use crate::rng::{draw, draw_of, RngState, skip, step_state};
use crate::sim::{
    batter_state_event, event_of_outcome, extra_weather_event, inning_state_event, just_switched,
    modifier_event, phase_event, phases, pitch_event, pitch_outcome, PitchOutcomeView, Plugin,
    steal_event_below, stealing_event, tick_event, tick_from,
};
use crate::weather::{carriers, pecked, weather_event};

verus! {

/// A draw does not give the state away: the state whose first word differs
/// in its lowest bit shows the same draw.
pub proof fn lemma_draw_forgets_state(s: RngState)
    ensures
        (s.0 ^ 1, s.1) != s,
        draw_of((s.0 ^ 1, s.1)) == draw_of(s),
{
    let x = s.0;
    assert((x ^ 1) != x) by (bit_vector);
    assert((x ^ 1) >> 12 == x >> 12) by (bit_vector);
}

/// Two generators with the same seed give the same draws for ever.
pub proof fn lemma_same_seed_same_draws(a: RngState, b: RngState, k: nat)
    requires
        a == b,
    ensures
        draw(a, k) == draw(b, k),
        skip(a, k) == skip(b, k),
{
}

/// An inning switch sets the count of scoring plays of the half-inning
/// back to 0, whatever the game and the world.
pub proof fn lemma_switch_resets_scoring_plays(g: GameView, w: WorldView, inning: i16, top: bool)
    ensures
        after_event(EventView::InningSwitch { inning, top }, g, w).0.scoring_plays_inning == 0,
        after_event(EventView::InningSwitch { inning, top }, g, w).0.balls == 0,
        after_event(EventView::InningSwitch { inning, top }, g, w).0.strikes == 0,
        after_event(EventView::InningSwitch { inning, top }, g, w).0.outs == 0,
        after_event(EventView::InningSwitch { inning, top }, g, w).0.runners.len() == 0,
{
}

/// The sweep keeps the runners who did not reach home, in their order, and
/// takes off as many runners as have reached home.
pub proof fn lemma_sweep_keeps_the_others(g: GameView)
    ensures
        after_sweep(g).runners == staying(g.runners, g.base_number - 1),
        g.runners.len() - after_sweep(g).runners.len() == scoring(
            g.runners,
            g.base_number - 1,
        ).len(),
{
    crate::game::lemma_swept_are_scoring(g.runners, g.base_number - 1);
}

/// With a fourth strike, of the batter or of the team, a strike is the
/// strikeout exactly when three strikes are on the count, and a foul leaves
/// at most three.
pub proof fn lemma_fourth_strike(g: GameView, w: WorldView)
    requires
        seq_has_mod(w.players[g.scoreboard.batting().batter->0].mods, Mod::FourthStrike)
            || seq_has_mod(w.teams[g.scoreboard.batting().id].mods, Mod::FourthStrike),
    ensures
        max_strikes(g, w) == 4,
        event_of_outcome(g, w, PitchOutcomeView::StrikeLooking) == EventView::Strikeout
            <==> g.strikes >= 3,
        event_of_outcome(g, w, PitchOutcomeView::StrikeSwinging) == EventView::Strikeout
            <==> g.strikes >= 3,
        after_event(EventView::Foul, g, w).0.strikes == if g.strikes + 1 < 3 {
            g.strikes + 1
        } else {
            3
        },
{
}

/// Without a fourth strike a strike is the strikeout exactly when two
/// strikes are on the count, and a foul leaves at most two.
pub proof fn lemma_third_strike(g: GameView, w: WorldView)
    requires
        !seq_has_mod(w.players[g.scoreboard.batting().batter->0].mods, Mod::FourthStrike),
        !seq_has_mod(w.teams[g.scoreboard.batting().id].mods, Mod::FourthStrike),
    ensures
        max_strikes(g, w) == 3,
        event_of_outcome(g, w, PitchOutcomeView::StrikeLooking) == EventView::Strikeout
            <==> g.strikes >= 2,
        after_event(EventView::Foul, g, w).0.strikes == if g.strikes + 1 < 2 {
            g.strikes + 1
        } else {
            2
        },
{
}

/// With a walk in the park, of the batter or of the team, a ball is the
/// walk exactly when two balls are on the count; without it, when three
/// are.
pub proof fn lemma_walk_in_the_park(g: GameView, w: WorldView)
    ensures
        event_of_outcome(g, w, PitchOutcomeView::Ball) == EventView::Walk <==> g.balls >= (if seq_has_mod(
            w.players[g.scoreboard.batting().batter->0].mods,
            Mod::WalkInThePark,
        ) || seq_has_mod(w.teams[g.scoreboard.batting().id].mods, Mod::WalkInThePark) {
            2int
        } else {
            3int
        }),
{
}

/// A team plays with five bases exactly when it has the fifth base, and
/// with four else; and with five bases as with four, the victim of a
/// fielder's choice is looked for on base 2, then 1, then 0, never on the
/// fourth base.
pub proof fn lemma_fifth_base(g: GameView, w: WorldView)
    ensures
        team_bases(w.teams[g.scoreboard.batting().id]) == if seq_has_mod(
            w.teams[g.scoreboard.batting().id].mods,
            Mod::FifthBase,
        ) {
            5u8
        } else {
            4u8
        },
        crate::bases::fielders_choice_base(g.runners) <= 2,
        occupied_in(g.runners, 2) ==> crate::bases::fielders_choice_base(g.runners) == 2,
{
}

/// A home run clears the bases, with four bases or with five: every runner
/// moves up by the number of bases and is swept.
pub proof fn lemma_home_run_clears_bases(g: GameView, w: WorldView)
    requires
        g.base_number >= 1,
        bases_below(g.runners, 256 - g.base_number),
    ensures
        after_event(EventView::HomeRun, g, w).0.runners.len() == 0,
{
    let moved = advance_each(g.runners, g.base_number as int);
    lemma_all_reached(moved, g.base_number - 1);
}

/// If every runner has reached home, nobody stays.
pub proof fn lemma_all_reached(s: Seq<Baserunner>, home: int)
    requires
        forall|i: int| 0 <= i < s.len() ==> (#[trigger] s[i]).base >= home,
    ensures
        staying(s, home).len() == 0,
    decreases s.len(),
{
    reveal(Seq::filter);
    if s.len() > 0 {
        lemma_all_reached(s.drop_last(), home);
    }
}

/// Whether the count and the outs of a game are in range: at most three
/// balls, three strikes and three outs, and none below 0.
pub open spec fn count_in_range(g: GameView) -> bool {
    &&& 0 <= g.balls <= 3
    &&& 0 <= g.strikes <= 3
    &&& 0 <= g.outs <= 3
}

/// Whether an event leaves the count, the outs, the inning and the
/// runners of a game alone.
pub open spec fn is_bystander(e: EventView) -> bool {
    match e {
        EventView::Fireproof { .. } => true,
        EventView::Incineration { .. } => true,
        EventView::IncinerationWithChain { .. } => true,
        EventView::Peanut { .. } => true,
        EventView::Birds => true,
        EventView::PeckedFree { .. } => true,
        EventView::Feedback { .. } => true,
        EventView::Soundproof { .. } => true,
        EventView::Reverb { .. } => true,
        EventView::Blooddrain { .. } => true,
        EventView::Sun2 { .. } => true,
        EventView::BlackHole { .. } => true,
        EventView::PolaritySwitch => true,
        EventView::NightShift { .. } => true,
        EventView::BatterUp { .. } => true,
        EventView::Shelled { .. } => true,
        EventView::GameOver => true,
        _ => false,
    }
}

/// Whether an event ends with one of its players out.
pub open spec fn is_out(e: EventView) -> bool {
    match e {
        EventView::Strikeout => true,
        EventView::GroundOut { .. } => true,
        EventView::Flyout { .. } => true,
        EventView::DoublePlay { .. } => true,
        EventView::FieldersChoice { .. } => true,
        EventView::CaughtStealing { .. } => true,
        _ => false,
    }
}

/// A bystander leaves the count, the outs, the inning, the half and the
/// runners as they are.
pub proof fn lemma_bystander(e: EventView, g: GameView, w: WorldView)
    requires
        is_bystander(e),
    ensures
        after_event(e, g, w).0.balls == g.balls,
        after_event(e, g, w).0.strikes == g.strikes,
        after_event(e, g, w).0.outs == g.outs,
        after_event(e, g, w).0.inning == g.inning,
        after_event(e, g, w).0.scoreboard.top == g.scoreboard.top,
        after_event(e, g, w).0.runners == g.runners,
        after_event(e, g, w).0.base_number == g.base_number,
        after_event(e, g, w).0.scoring_plays_inning == g.scoring_plays_inning,
{
}

/// The birds peck free or do nothing.
pub proof fn lemma_pecked(shelled: Seq<u128>, s: RngState, k: int)
    ensures
        pecked(shelled, s, k).0 matches Some(e) ==> is_bystander(e),
    decreases shelled.len() - k,
{
    if 0 <= k < shelled.len() {
        lemma_pecked(shelled, step_state(s), k + 1);
    }
}

/// Whatever the weather does, it leaves the count, the outs, the inning
/// and the runners alone.
pub proof fn lemma_weather_is_bystander(g: GameView, w: WorldView, s: RngState, fresh: u128)
    ensures
        weather_event(g, w, s, fresh).0 matches Some(e) ==> is_bystander(e),
{
    lemma_pecked(carriers(g, w, Mod::Shelled), step_state(s), 0);
}

/// What the steal phase gives for the bases below `base`: nothing, or a
/// steal or an out of the first runner on one of those bases, whose next
/// base is free.
pub proof fn lemma_steal_shape(g: GameView, s: RngState, base: nat)
    requires
        base <= 4,
    ensures
        match steal_event_below(g, s, base).0 {
            None => true,
            Some(EventView::BaseSteal { runner, base_from, base_to }) => {
                &&& base_from < base
                &&& base_to == base_from + 1
                &&& occupied_in(g.runners, base_from as int)
                &&& !occupied_in(g.runners, base_from + 1)
            },
            Some(EventView::CaughtStealing { runner, base_from }) => {
                &&& base_from < base
                &&& occupied_in(g.runners, base_from as int)
            },
            Some(_) => false,
        },
    decreases base,
{
    if base > 0 {
        lemma_steal_shape(g, s, (base - 1) as nat);
        lemma_steal_shape(g, step_state(s), (base - 1) as nat);
    }
}

/// Crediting runs never adds an out and never takes the outs below 0.
pub proof fn lemma_credited_outs(
    runners: Seq<Baserunner>,
    home: int,
    value: i64,
    outs: i16,
    players: Map<u128, PlayerView>,
    k: int,
)
    requires
        0 <= outs,
    ensures
        0 <= credited(runners, home, value, outs, players, k).1 <= outs,
    decreases runners.len() - k,
{
    if 0 <= k < runners.len() {
        if runners[k].base >= home {
            let p = players[runners[k].id];
            let refill = seq_has_mod(p.mods, Mod::FreeRefill);
            lemma_credited_outs(
                runners,
                home,
                value,
                if refill && outs > 0 {
                    (outs - 1) as i16
                } else {
                    outs
                },
                if refill {
                    players.insert(
                        runners[k].id,
                        PlayerView {
                            mods: crate::mods::without_mod(p.mods, Mod::FreeRefill),
                            ..p
                        },
                    )
                } else {
                    players
                },
                k + 1,
            );
        } else {
            lemma_credited_outs(runners, home, value, outs, players, k + 1);
        }
    }
}

/// A sweep never adds an out and never takes the outs below 0; it leaves
/// the count, the inning and the half as they are.
pub proof fn lemma_swept_outs(g: GameView, w: WorldView)
    requires
        0 <= g.outs,
    ensures
        0 <= swept(g, w).0.outs <= g.outs,
        swept(g, w).0.balls == g.balls,
        swept(g, w).0.strikes == g.strikes,
        swept(g, w).0.inning == g.inning,
        swept(g, w).0.scoreboard.top == g.scoreboard.top,
        swept(g, w).0.base_number == g.base_number,
        swept(g, w).0.runners == staying(g.runners, g.base_number - 1),
{
    lemma_credited_outs(g.runners, g.base_number - 1, run_value(g), g.outs, w.players, 0);
}

/// What one tick keeps of the count: the count and the outs stay in
/// range; a ball leaves the balls below the number that walks the batter; a
/// strike or a foul leaves the strikes below the number that puts the
/// batter out; and the outs reach three only by an out or when the game is
/// over.
#[verifier::opaque]
pub open spec fn keeps_count(e: EventView, g: GameView, w: WorldView) -> bool {
    let after = after_event(e, g, w).0;
    &&& count_in_range(after)
    &&& e is Ball ==> after.balls < max_balls(g, w)
    &&& e is Strike || e is Foul ==> after.strikes < max_strikes(g, w)
    &&& after.outs == 3 ==> is_out(e) || e is GameOver
}

/// The first phase speaks exactly when three are out, and what it gives
/// keeps the count.
pub proof fn lemma_inning_state_keeps_count(g: GameView, w: WorldView)
    requires
        count_in_range(g),
    ensures
        inning_state_event(g) is None <==> g.outs < 3,
        inning_state_event(g) matches Some(e) ==> keeps_count(e, g, w),
{
    reveal(keeps_count);
}

/// What the salmon phase gives keeps the count.
pub proof fn lemma_extra_weather_keeps_count(g: GameView, w: WorldView, s: RngState)
    requires
        count_in_range(g),
        g.outs < 3,
    ensures
        extra_weather_event(g, s).0 matches Some(e) ==> keeps_count(e, g, w),
{
    reveal(keeps_count);
}

/// What the batter phase gives keeps the count.
pub proof fn lemma_batter_state_keeps_count(g: GameView, w: WorldView, s: RngState)
    requires
        count_in_range(g),
        g.outs < 3,
    ensures
        batter_state_event(g, w, s).0 matches Some(e) ==> keeps_count(e, g, w),
{
    reveal(keeps_count);
}

/// What the weather phase gives keeps the count.
pub proof fn lemma_weather_keeps_count(g: GameView, w: WorldView, s: RngState, fresh: u128)
    requires
        count_in_range(g),
        g.outs < 3,
    ensures
        weather_event(g, w, s, fresh).0 matches Some(e) ==> keeps_count(e, g, w),
{
    reveal(keeps_count);
    lemma_weather_is_bystander(g, w, s, fresh);
    if weather_event(g, w, s, fresh).0 is Some {
        lemma_bystander(weather_event(g, w, s, fresh).0->0, g, w);
    }
}

/// What the modifier phase gives keeps the count.
pub proof fn lemma_modifier_keeps_count(g: GameView, w: WorldView, s: RngState)
    requires
        count_in_range(g),
        g.outs < 3,
    ensures
        modifier_event(g, w, s).0 matches Some(e) ==> keeps_count(e, g, w),
{
    reveal(keeps_count);
    assert forall|gg: GameView, ww: WorldView| 0 <= gg.outs implies 0 <= (#[trigger] swept(
        gg,
        ww,
    )).0.outs <= gg.outs && swept(gg, ww).0.balls == gg.balls && swept(gg, ww).0.strikes
        == gg.strikes by {
        lemma_swept_outs(gg, ww);
    }
}

/// What the steal phase gives keeps the count.
pub proof fn lemma_stealing_keeps_count(g: GameView, w: WorldView, s: RngState)
    requires
        count_in_range(g),
        g.outs < 3,
    ensures
        stealing_event(g, s).0 matches Some(e) ==> keeps_count(e, g, w),
{
    reveal(keeps_count);
    lemma_steal_shape(g, step_state(s), 4);
    assert forall|gg: GameView, ww: WorldView| 0 <= gg.outs implies 0 <= (#[trigger] swept(
        gg,
        ww,
    )).0.outs <= gg.outs && swept(gg, ww).0.balls == gg.balls && swept(gg, ww).0.strikes
        == gg.strikes by {
        lemma_swept_outs(gg, ww);
    }
}

/// A pitch ends in a double play only with fewer than two out.
pub proof fn lemma_double_play_needs_room(
    g: GameView,
    w: WorldView,
    t: PitchThresholdsView,
    s: RngState,
)
    ensures
        pitch_outcome(g, w, t, s).0 is DoublePlay ==> g.outs < 2,
{
}

/// The event of a pitch keeps the count, however the pitch ends.
pub proof fn lemma_outcome_keeps_count(g: GameView, w: WorldView, o: PitchOutcomeView)
    requires
        count_in_range(g),
        g.outs < 3,
        o is DoublePlay ==> g.outs < 2,
    ensures
        keeps_count(event_of_outcome(g, w, o), g, w),
{
    reveal(keeps_count);
    assert forall|gg: GameView, ww: WorldView| 0 <= gg.outs implies 0 <= (#[trigger] swept(
        gg,
        ww,
    )).0.outs <= gg.outs && swept(gg, ww).0.balls == gg.balls && swept(gg, ww).0.strikes
        == gg.strikes by {
        lemma_swept_outs(gg, ww);
    }
}

/// One tick keeps the count and the outs in range.  A ball leaves the
/// balls below the number that walks the batter, a strike or a foul leaves
/// the strikes below the number that puts the batter out, and the outs
/// reach three only by an out or when the game is over.
pub proof fn lemma_tick_keeps_count(
    g: GameView,
    w: WorldView,
    t: PitchThresholdsView,
    s: RngState,
    fresh: u128,
)
    requires
        count_in_range(g),
    ensures
        keeps_count(tick_event(g, w, t, s, fresh).0, g, w),
{
    reveal_with_fuel(tick_from, 8);
    let e = tick_event(g, w, t, s, fresh).0;
    lemma_inning_state_keeps_count(g, w);
    let r0 = phase_event(phases()[0], g, w, t, s, fresh);
    if r0.0 is None {
        let r1 = phase_event(phases()[1], g, w, t, r0.1, fresh);
        lemma_extra_weather_keeps_count(g, w, r0.1);
        if r1.0 is None {
            let r2 = phase_event(phases()[2], g, w, t, r1.1, fresh);
            lemma_batter_state_keeps_count(g, w, r1.1);
            if r2.0 is None {
                let r3 = phase_event(phases()[3], g, w, t, r2.1, fresh);
                lemma_weather_keeps_count(g, w, r2.1, fresh);
                if r3.0 is None {
                    let r4 = phase_event(phases()[4], g, w, t, r3.1, fresh);
                    lemma_modifier_keeps_count(g, w, r3.1);
                    if r4.0 is None {
                        let r5 = phase_event(phases()[5], g, w, t, r4.1, fresh);
                        lemma_stealing_keeps_count(g, w, r4.1);
                        if r5.0 is None {
                            lemma_double_play_needs_room(g, w, t, r5.1);
                            lemma_outcome_keeps_count(g, w, pitch_outcome(g, w, t, r5.1).0);
                            assert(e == pitch_event(g, w, t, r5.1).0);
                        } else {
                            assert(e == r5.0->0);
                        }
                    } else {
                        assert(e == r4.0->0);
                    }
                } else {
                    assert(e == r3.0->0);
                }
            } else {
                assert(e == r2.0->0);
            }
        } else {
            assert(e == r1.0->0);
        }
    } else {
        assert(e == r0.0->0);
    }
}

/// Only the inning switch is written to the feeds under the tag of the
/// switch.
pub proof fn lemma_switch_tag(e: EventView)
    ensures
        tag_of(e) == inning_switch_tag() <==> e is InningSwitch,
{
    reveal_strlit("batterUp");
    reveal_strlit("inningSwitch");
    reveal_strlit("gameOver");
    reveal_strlit("ball");
    reveal_strlit("strike");
    reveal_strlit("foul");
    reveal_strlit("strikeOut");
    reveal_strlit("walk");
    reveal_strlit("homeRun");
    reveal_strlit("baseHit");
    reveal_strlit("groundOut");
    reveal_strlit("flyout");
    reveal_strlit("doublePlay");
    reveal_strlit("fieldersChoice");
    reveal_strlit("baseSteal");
    reveal_strlit("caughtStealing");
    reveal_strlit("incineration");
    reveal_strlit("peanut");
    reveal_strlit("birds");
    reveal_strlit("feedback");
    reveal_strlit("reverb");
    reveal_strlit("blooddrain");
    reveal_strlit("sun2");
    reveal_strlit("blackHole");
    reveal_strlit("salmon");
    reveal_strlit("polaritySwitch");
    reveal_strlit("nightShift");
    reveal_strlit("fireproof");
    reveal_strlit("soundproof");
    reveal_strlit("shelled");
    reveal_strlit("hitByPitch");
    reveal_strlit("incinerationWithChain");
    reveal_strlit("peckedFree");
    reveal_strlit("zap");
    let switch = inning_switch_tag();
    assert(switch.len() == 12);
    match e {
        EventView::InningSwitch { .. } => {},
        EventView::Incineration { .. } => {
            assert(tag_of(e)[2] == 'c');
            assert(switch[2] == 'n');
        },
        EventView::BatterUp { .. } => {
            assert(tag_of(e).len() == 8);
        },
        EventView::GameOver => {
            assert(tag_of(e).len() == 8);
        },
        EventView::Ball => {
            assert(tag_of(e).len() == 4);
        },
        EventView::Strike => {
            assert(tag_of(e).len() == 6);
        },
        EventView::Foul => {
            assert(tag_of(e).len() == 4);
        },
        EventView::Strikeout => {
            assert(tag_of(e).len() == 9);
        },
        EventView::Walk => {
            assert(tag_of(e).len() == 4);
        },
        EventView::HomeRun => {
            assert(tag_of(e).len() == 7);
        },
        EventView::BaseHit { .. } => {
            assert(tag_of(e).len() == 7);
        },
        EventView::GroundOut { .. } => {
            assert(tag_of(e).len() == 9);
        },
        EventView::Flyout { .. } => {
            assert(tag_of(e).len() == 6);
        },
        EventView::DoublePlay { .. } => {
            assert(tag_of(e).len() == 10);
        },
        EventView::FieldersChoice { .. } => {
            assert(tag_of(e).len() == 14);
        },
        EventView::BaseSteal { .. } => {
            assert(tag_of(e).len() == 9);
        },
        EventView::CaughtStealing { .. } => {
            assert(tag_of(e).len() == 14);
        },
        EventView::Peanut { .. } => {
            assert(tag_of(e).len() == 6);
        },
        EventView::Birds => {
            assert(tag_of(e).len() == 5);
        },
        EventView::Feedback { .. } => {
            assert(tag_of(e).len() == 8);
        },
        EventView::Reverb { .. } => {
            assert(tag_of(e).len() == 6);
        },
        EventView::Blooddrain { .. } => {
            assert(tag_of(e).len() == 10);
        },
        EventView::Sun2 { .. } => {
            assert(tag_of(e).len() == 4);
        },
        EventView::BlackHole { .. } => {
            assert(tag_of(e).len() == 9);
        },
        EventView::Salmon { .. } => {
            assert(tag_of(e).len() == 6);
        },
        EventView::PolaritySwitch => {
            assert(tag_of(e).len() == 14);
        },
        EventView::NightShift { .. } => {
            assert(tag_of(e).len() == 10);
        },
        EventView::Fireproof { .. } => {
            assert(tag_of(e).len() == 9);
        },
        EventView::Soundproof { .. } => {
            assert(tag_of(e).len() == 10);
        },
        EventView::Shelled { .. } => {
            assert(tag_of(e).len() == 7);
        },
        EventView::HitByPitch { .. } => {
            assert(tag_of(e).len() == 10);
        },
        EventView::IncinerationWithChain { .. } => {
            assert(tag_of(e).len() == 21);
        },
        EventView::PeckedFree { .. } => {
            assert(tag_of(e).len() == 10);
        },
        EventView::Zap { .. } => {
            assert(tag_of(e).len() == 3);
        },
    }
}

/// Whether the inning of a game is sound: at least the first, and at
/// least the second at the beginning of the top of an inning that a switch
/// has just begun.
pub open spec fn inning_in_range(g: GameView) -> bool {
    &&& g.inning >= 1
    &&& g.scoreboard.top && just_switched(g) ==> g.inning >= 2
}

/// What one tick keeps of the inning: it stays sound; the salmon take it
/// back by at most one and leave the game at the top of an inning; and
/// nothing else takes it back.
#[verifier::opaque]
pub open spec fn keeps_inning(e: EventView, g: GameView, w: WorldView) -> bool {
    let after = after_event(e, g, w).0;
    &&& inning_in_range(after)
    &&& e is Salmon ==> g.inning - 1 <= after.inning <= g.inning && after.scoreboard.top
    &&& !(e is Salmon) ==> after.inning >= g.inning
}

/// Whether an event is one that the phases after the first two give.
pub open spec fn is_play(e: EventView) -> bool {
    !(e is InningSwitch) && !(e is Salmon)
}

/// A play leaves the inning and the half as they are, and the half-inning
/// has then not just begun.
pub proof fn lemma_play_keeps_inning(e: EventView, g: GameView, w: WorldView)
    requires
        is_play(e),
        inning_in_range(g),
    ensures
        keeps_inning(e, g, w),
{
    reveal(keeps_inning);
    lemma_switch_tag(e);
    let after = after_event(e, g, w).0;
    assert forall|gg: GameView, ww: WorldView|
        (#[trigger] swept(gg, ww)).0.inning == gg.inning && swept(gg, ww).0.scoreboard.top
            == gg.scoreboard.top && swept(gg, ww).0.events == gg.events by {
    }
    assert(after.events == g.events.push(tag_of(e)));
    assert(after.events.last() == tag_of(e));
}

/// The first phase keeps the inning sound.
pub proof fn lemma_inning_state_keeps_inning(g: GameView, w: WorldView)
    requires
        inning_in_range(g),
        g.inning < i16::MAX,
    ensures
        inning_state_event(g) matches Some(e) ==> keeps_inning(e, g, w),
{
    if inning_state_event(g) is Some {
        let e = inning_state_event(g)->0;
        if e is GameOver {
            lemma_play_keeps_inning(e, g, w);
        } else {
            reveal(keeps_inning);
            let after = after_event(e, g, w).0;
            assert(after.inning >= g.inning);
            assert(after.scoreboard.top ==> after.inning >= 2);
        }
    }
}

/// The salmon take the inning back by at most one, never below the first,
/// and leave the game at the top of an inning.
pub proof fn lemma_salmon_keeps_inning(g: GameView, w: WorldView, s: RngState)
    requires
        inning_in_range(g),
    ensures
        extra_weather_event(g, s).0 matches Some(e) ==> keeps_inning(e, g, w),
{
    if extra_weather_event(g, s).0 is Some {
        reveal(keeps_inning);
        let e = extra_weather_event(g, s).0->0;
        assert(e is Salmon);
        assert(just_switched(g));
        lemma_switch_tag(e);
        let g1 = GameView { events: g.events.push(tag_of(e)), ..g };
        let after = after_event(e, g, w).0;
        assert(after == crate::events::after_salmon(
            g1,
            e->home_runs_lost,
            e->away_runs_lost,
        ));
        assert(after.events == g1.events);
        assert(after.events.last() == tag_of(e));
        assert(!just_switched(after));
    }
}

/// The phases after the first two give plays only.
pub proof fn lemma_later_phases_give_plays(
    k: int,
    g: GameView,
    w: WorldView,
    t: PitchThresholdsView,
    s: RngState,
    fresh: u128,
)
    requires
        2 <= k <= 6,
    ensures
        phase_event(phases()[k], g, w, t, s, fresh).0 matches Some(e) ==> is_play(e),
{
    if k == 3 {
        lemma_weather_is_bystander(g, w, s, fresh);
    }
    if k == 5 {
        lemma_steal_shape(g, step_state(s), 4);
    }
}

/// One tick keeps the inning sound.  The salmon take it back by at most
/// one and leave the game at the top of an inning; nothing else takes it
/// back.
pub proof fn lemma_tick_keeps_inning(
    g: GameView,
    w: WorldView,
    t: PitchThresholdsView,
    s: RngState,
    fresh: u128,
)
    requires
        inning_in_range(g),
        g.inning < i16::MAX,
    ensures
        keeps_inning(tick_event(g, w, t, s, fresh).0, g, w),
{
    reveal_with_fuel(tick_from, 8);
    let e = tick_event(g, w, t, s, fresh).0;
    lemma_inning_state_keeps_inning(g, w);
    lemma_salmon_keeps_inning(g, w, s);
    let r0 = phase_event(phases()[0], g, w, t, s, fresh);
    if r0.0 is None {
        let r1 = phase_event(phases()[1], g, w, t, r0.1, fresh);
        if r1.0 is None {
            let r2 = phase_event(phases()[2], g, w, t, r1.1, fresh);
            lemma_later_phases_give_plays(2, g, w, t, r1.1, fresh);
            if r2.0 is None {
                let r3 = phase_event(phases()[3], g, w, t, r2.1, fresh);
                lemma_later_phases_give_plays(3, g, w, t, r2.1, fresh);
                if r3.0 is None {
                    let r4 = phase_event(phases()[4], g, w, t, r3.1, fresh);
                    lemma_later_phases_give_plays(4, g, w, t, r3.1, fresh);
                    if r4.0 is None {
                        let r5 = phase_event(phases()[5], g, w, t, r4.1, fresh);
                        lemma_later_phases_give_plays(5, g, w, t, r4.1, fresh);
                        if r5.0 is None {
                            lemma_later_phases_give_plays(6, g, w, t, r5.1, fresh);
                            assert(e == pitch_event(g, w, t, r5.1).0);
                        } else {
                            assert(e == r5.0->0);
                        }
                    } else {
                        assert(e == r4.0->0);
                    }
                } else {
                    assert(e == r3.0->0);
                }
            } else {
                assert(e == r2.0->0);
            }
        } else {
            assert(e == r1.0->0);
        }
    } else {
        assert(e == r0.0->0);
    }
    if is_play(e) {
        lemma_play_keeps_inning(e, g, w);
    }
}

/// The state in which the pitch phase of a tick finds the generator, if
/// the phases before it give nothing.
pub open spec fn state_before_pitch(
    g: GameView,
    w: WorldView,
    t: PitchThresholdsView,
    s: RngState,
    fresh: u128,
) -> RngState {
    let s1 = phase_event(phases()[1], g, w, t, s, fresh).1;
    let s2 = phase_event(phases()[2], g, w, t, s1, fresh).1;
    let s3 = phase_event(phases()[3], g, w, t, s2, fresh).1;
    let s4 = phase_event(phases()[4], g, w, t, s3, fresh).1;
    phase_event(phases()[5], g, w, t, s4, fresh).1
}

/// Whether an event is one that only a pitch gives.
pub open spec fn is_pitch_only(e: EventView) -> bool {
    e is Strikeout || e is Strike || e is Ball || e is Walk || e is Foul
}

/// What the phases before the pitch never give.
pub proof fn lemma_earlier_phases_give_no_pitch(
    k: int,
    g: GameView,
    w: WorldView,
    t: PitchThresholdsView,
    s: RngState,
    fresh: u128,
)
    requires
        0 <= k <= 5,
    ensures
        phase_event(phases()[k], g, w, t, s, fresh).0 matches Some(e) ==> !is_pitch_only(e),
{
    if k == 3 {
        lemma_weather_is_bystander(g, w, s, fresh);
    }
    if k == 5 {
        lemma_steal_shape(g, step_state(s), 4);
    }
}

/// A strikeout comes from a pitch that was a strike, swinging or looking,
/// with the strikes at least one short of the number that puts the batter
/// out; and exactly one short if they were below that number.
pub proof fn lemma_strikeout_is_last_strike(
    g: GameView,
    w: WorldView,
    t: PitchThresholdsView,
    s: RngState,
    fresh: u128,
)
    requires
        tick_event(g, w, t, s, fresh).0 is Strikeout,
    ensures
        ({
            let o = pitch_outcome(g, w, t, state_before_pitch(g, w, t, s, fresh)).0;
            &&& o is StrikeSwinging || o is StrikeLooking
            &&& g.strikes + 1 >= max_strikes(g, w)
            &&& g.strikes < max_strikes(g, w) ==> g.strikes == max_strikes(g, w) - 1
        }),
{
    reveal_with_fuel(tick_from, 8);
    let r0 = phase_event(phases()[0], g, w, t, s, fresh);
    lemma_earlier_phases_give_no_pitch(0, g, w, t, s, fresh);
    let r1 = phase_event(phases()[1], g, w, t, r0.1, fresh);
    lemma_earlier_phases_give_no_pitch(1, g, w, t, r0.1, fresh);
    let r2 = phase_event(phases()[2], g, w, t, r1.1, fresh);
    lemma_earlier_phases_give_no_pitch(2, g, w, t, r1.1, fresh);
    let r3 = phase_event(phases()[3], g, w, t, r2.1, fresh);
    lemma_earlier_phases_give_no_pitch(3, g, w, t, r2.1, fresh);
    let r4 = phase_event(phases()[4], g, w, t, r3.1, fresh);
    lemma_earlier_phases_give_no_pitch(4, g, w, t, r3.1, fresh);
    let r5 = phase_event(phases()[5], g, w, t, r4.1, fresh);
    lemma_earlier_phases_give_no_pitch(5, g, w, t, r4.1, fresh);
    assert(r0.1 == s);
}

/// What a phase gives depends on the identity of a replacement only in
/// that identity.
pub proof fn lemma_phase_tag_is_determined(
    p: Plugin,
    g: GameView,
    w: WorldView,
    t: PitchThresholdsView,
    s: RngState,
    fresh1: u128,
    fresh2: u128,
)
    ensures
        phase_event(p, g, w, t, s, fresh1).1 == phase_event(p, g, w, t, s, fresh2).1,
        phase_event(p, g, w, t, s, fresh1).0 is None <==> phase_event(p, g, w, t, s, fresh2).0
            is None,
        phase_event(p, g, w, t, s, fresh1).0 is Some ==> tag_of(
            phase_event(p, g, w, t, s, fresh1).0->0,
        ) == tag_of(phase_event(p, g, w, t, s, fresh2).0->0),
{
}

/// The tag of the event of the phases from `k` on, and the state in which
/// they leave the generator, do not depend on the identity that a
/// replacement gets.
pub proof fn lemma_tick_from_tag_is_determined(
    k: int,
    g: GameView,
    w: WorldView,
    t: PitchThresholdsView,
    s: RngState,
    fresh1: u128,
    fresh2: u128,
)
    ensures
        tag_of(tick_from(k, g, w, t, s, fresh1).0) == tag_of(tick_from(k, g, w, t, s, fresh2).0),
        tick_from(k, g, w, t, s, fresh1).1 == tick_from(k, g, w, t, s, fresh2).1,
    decreases 7 - k,
{
    if 0 <= k < 6 {
        lemma_phase_tag_is_determined(phases()[k], g, w, t, s, fresh1, fresh2);
        let r = phase_event(phases()[k], g, w, t, s, fresh1);
        if r.0 is None {
            lemma_tick_from_tag_is_determined(k + 1, g, w, t, r.1, fresh1, fresh2);
        }
    }
}

/// The tag of the event of a tick, and the state in which the tick leaves
/// the generator, do not depend on the identity that a replacement gets:
/// two simulators in the same state write the same tag.
pub proof fn lemma_tick_tag_is_determined(
    g: GameView,
    w: WorldView,
    t: PitchThresholdsView,
    s: RngState,
    fresh1: u128,
    fresh2: u128,
)
    ensures
        tag_of(tick_event(g, w, t, s, fresh1).0) == tag_of(tick_event(g, w, t, s, fresh2).0),
        tick_event(g, w, t, s, fresh1).1 == tick_event(g, w, t, s, fresh2).1,
{
    lemma_tick_from_tag_is_determined(0, g, w, t, s, fresh1, fresh2);
}

/// Whether the runners of a game are in order: four or five bases are in
/// play, no two runners share a base, and every runner stands short of
/// home plate.
pub open spec fn runners_in_order(g: GameView) -> bool {
    &&& g.base_number == 4 || g.base_number == 5
    &&& distinct_bases(g.runners)
    &&& bases_below(g.runners, g.base_number - 1)
}

/// The runners who stay after a sweep share no base if the runners before
/// it shared none, and stand short of home.
pub proof fn lemma_staying_in_order(s: Seq<Baserunner>, home: int)
    requires
        distinct_bases(s),
    ensures
        distinct_bases(staying(s, home)),
        bases_below(staying(s, home), home),
        forall|b: int| !occupied_in(s, b) ==> !occupied_in(staying(s, home), b),
    decreases s.len(),
{
    reveal(Seq::filter);
    let pred = is_short_of(home);
    if s.len() > 0 {
        let t = s.drop_last();
        assert forall|i: int, j: int|
            0 <= i < t.len() && 0 <= j < t.len() && i != j implies (#[trigger] t[i]).base != (
        #[trigger] t[j]).base by {
            assert(t[i] == s[i] && t[j] == s[j]);
        }
        lemma_staying_in_order(t, home);
        let f = staying(t, home);
        assert forall|b: int| !occupied_in(s, b) implies !occupied_in(staying(s, home), b) by {
            if occupied_in(staying(s, home), b) {
                let i = choose|i: int|
                    0 <= i < staying(s, home).len() && (#[trigger] staying(s, home)[i]).base == b;
                if i < f.len() {
                    assert(occupied_in(f, b));
                    assert(!occupied_in(t, b)) by {
                        if occupied_in(t, b) {
                            let k = choose|k: int| 0 <= k < t.len() && (#[trigger] t[k]).base == b;
                            assert(s[k].base == b);
                        }
                    }
                } else {
                    assert(s[s.len() - 1].base == b);
                }
            }
        }
        if pred(s.last()) {
            assert(!occupied_in(t, s.last().base as int)) by {
                if occupied_in(t, s.last().base as int) {
                    let k = choose|k: int|
                        0 <= k < t.len() && (#[trigger] t[k]).base == s.last().base;
                    assert(s[k].base == s[s.len() - 1].base);
                }
            }
            assert(!occupied_in(f, s.last().base as int));
            let r = f.push(s.last());
            assert forall|i: int, j: int|
                0 <= i < r.len() && 0 <= j < r.len() && i != j implies (#[trigger] r[i]).base != (
            #[trigger] r[j]).base by {
                if i < f.len() && j < f.len() {
                } else if i < f.len() {
                    assert(f[i].base != s.last().base);
                } else {
                    assert(f[j].base != s.last().base);
                }
            }
        }
    }
}

/// Runners who all move up by the same number of bases share no base if
/// they shared none.
pub proof fn lemma_advance_each_in_order(s: Seq<Baserunner>, k: int)
    requires
        distinct_bases(s),
        0 <= k,
        bases_below(s, 256 - k),
    ensures
        distinct_bases(advance_each(s, k)),
        advance_each(s, k).len() == s.len(),
        forall|i: int| 0 <= i < s.len() ==> (#[trigger] advance_each(s, k)[i]).base == s[i].base + k,
{
    let r = advance_each(s, k);
    assert forall|i: int| 0 <= i < s.len() implies (#[trigger] r[i]).base == s[i].base + k by {
        assert(s[i].base < 256 - k);
    }
    assert forall|i: int, j: int|
        0 <= i < r.len() && 0 <= j < r.len() && i != j implies (#[trigger] r[i]).base != (
    #[trigger] r[j]).base by {
        assert(s[i].base != s[j].base);
    }
}

/// Runners who advance one after the other, each only to a free base,
/// share no base if they shared none; and none of them goes back or
/// further than one base.
pub proof fn lemma_advance_if_in_order(s: Seq<Baserunner>, advancing: Seq<u128>, i: int)
    requires
        distinct_bases(s),
        0 <= i,
        forall|j: int| i <= j < s.len() ==> (#[trigger] s[j]).base < 255,
    ensures
        distinct_bases(advance_if_from(s, advancing, i)),
        advance_if_from(s, advancing, i).len() == s.len(),
        forall|j: int|
            0 <= j < s.len() ==> s[j].base <= (#[trigger] advance_if_from(s, advancing, i)[j]).base
                <= s[j].base + 1,
    decreases s.len() - i,
{
    if i < s.len() {
        if !occupied_in(s, s[i].base + 1) && advancing.contains(s[i].id) {
            let t = moved(s, i, 1);
            assert forall|a: int, b: int|
                0 <= a < t.len() && 0 <= b < t.len() && a != b implies (#[trigger] t[a]).base != (
            #[trigger] t[b]).base by {
                if a == i {
                    assert(s[b].base != s[i].base + 1);
                } else if b == i {
                    assert(s[a].base != s[i].base + 1);
                } else {
                    assert(s[a].base != s[b].base);
                }
            }
            assert forall|j: int| i + 1 <= j < t.len() implies (#[trigger] t[j]).base < 255 by {
                assert(t[j] == s[j]);
            }
            lemma_advance_if_in_order(t, advancing, i + 1);
            assert forall|j: int| 0 <= j < s.len() implies s[j].base <= (
            #[trigger] advance_if_from(s, advancing, i)[j]).base <= s[j].base + 1 by {
                let r = advance_if_from(t, advancing, i + 1);
                assert(t[j].base <= r[j].base <= t[j].base + 1);
                if j == i {
                    lemma_advance_if_keeps_earlier(t, advancing, i + 1, j);
                }
            }
        } else {
            lemma_advance_if_in_order(s, advancing, i + 1);
        }
    }
}

/// The runners before position `i` are not moved by the runners from `i`
/// on.
pub proof fn lemma_advance_if_keeps_earlier(
    s: Seq<Baserunner>,
    advancing: Seq<u128>,
    i: int,
    j: int,
)
    requires
        0 <= j < i,
        j < s.len(),
    ensures
        advance_if_from(s, advancing, i).len() == s.len(),
        advance_if_from(s, advancing, i)[j] == s[j],
    decreases s.len() - i,
{
    if i < s.len() {
        if !occupied_in(s, s[i].base + 1) && advancing.contains(s[i].id) {
            lemma_advance_if_keeps_earlier(moved(s, i, 1), advancing, i + 1, j);
        } else {
            lemma_advance_if_keeps_earlier(s, advancing, i + 1, j);
        }
    }
}

/// Runners of whom one is taken off share no base if they shared none.
pub proof fn lemma_removed_first_in_order(s: Seq<Baserunner>, base: int)
    requires
        distinct_bases(s),
    ensures
        distinct_bases(removed_first(s, base)),
        forall|bound: int| bases_below(s, bound) ==> bases_below(removed_first(s, base), bound),
{
    crate::bases::lemma_first_on(s, base);
    let r = removed_first(s, base);
    let k = first_on(s, base);
    if k < s.len() {
        assert forall|i: int, j: int|
            0 <= i < r.len() && 0 <= j < r.len() && i != j implies (#[trigger] r[i]).base != (
        #[trigger] r[j]).base by {
            let a = if i < k {
                i
            } else {
                i + 1
            };
            let b = if j < k {
                j
            } else {
                j + 1
            };
            assert(r[i] == s[a] && r[j] == s[b]);
        }
        assert forall|bound: int| bases_below(s, bound) implies bases_below(r, bound) by {
            assert forall|i: int| 0 <= i < r.len() implies (#[trigger] r[i]).base < bound by {
                let a = if i < k {
                    i
                } else {
                    i + 1
                };
                assert(r[i] == s[a]);
            }
        }
    }
}

/// A runner who moves up to a free base shares it with nobody.
pub proof fn lemma_advance_first_in_order(s: Seq<Baserunner>, base: int)
    requires
        distinct_bases(s),
        0 <= base < 255,
        !occupied_in(s, base + 1),
    ensures
        distinct_bases(advance_first(s, base)),
        advance_first(s, base).len() == s.len(),
        !occupied_in(advance_first(s, base), base),
        forall|b: int|
            b != base + 1 && !occupied_in(s, b) ==> !occupied_in(advance_first(s, base), b),
        forall|bound: int|
            bases_below(s, bound) && base + 1 < bound ==> bases_below(advance_first(s, base), bound),
{
    crate::bases::lemma_first_on(s, base);
    let k = first_on(s, base);
    let r = advance_first(s, base);
    if k < s.len() {
        assert forall|i: int, j: int|
            0 <= i < r.len() && 0 <= j < r.len() && i != j implies (#[trigger] r[i]).base != (
        #[trigger] r[j]).base by {
            if i == k {
                assert(s[j].base != base + 1);
            } else if j == k {
                assert(s[i].base != base + 1);
            } else {
                assert(s[i].base != s[j].base);
            }
        }
        assert(!occupied_in(r, base)) by {
            if occupied_in(r, base) {
                let i = choose|i: int| 0 <= i < r.len() && (#[trigger] r[i]).base == base;
                assert(s[i].base == s[k].base);
            }
        }
        assert forall|b: int| b != base + 1 && !occupied_in(s, b) implies !occupied_in(r, b) by {
            if occupied_in(r, b) {
                let i = choose|i: int| 0 <= i < r.len() && (#[trigger] r[i]).base == b;
                assert(s[i].base == b);
            }
        }
        assert forall|bound: int| bases_below(s, bound) && base + 1 < bound implies bases_below(
            r,
            bound,
        ) by {
            assert forall|i: int| 0 <= i < r.len() implies (#[trigger] r[i]).base < bound by {
                assert(s[i].base < bound);
            }
        }
    }
}

/// Pushing a chain ahead from a free base keeps the runners apart and
/// frees base 0.
pub proof fn lemma_push_chain_in_order(s: Seq<Baserunner>, k: nat)
    requires
        distinct_bases(s),
        k < 255,
        !occupied_in(s, k as int),
    ensures
        distinct_bases(push_chain(s, k)),
        push_chain(s, k).len() == s.len(),
        k > 0 ==> !occupied_in(push_chain(s, k), 0),
        k == 0 ==> push_chain(s, k) == s,
    decreases k,
{
    if k > 0 {
        lemma_advance_first_in_order(s, k - 1);
        let t = advance_first(s, k - 1);
        lemma_push_chain_in_order(t, (k - 1) as nat);
        if k - 1 == 0 {
            assert(push_chain(t, 0) == t);
        }
    }
}

/// The chain of occupied bases ends at a free base.
pub proof fn lemma_chain_ends_free(s: Seq<Baserunner>, max: nat)
    ensures
        chain_len(s, max) <= max,
        chain_len(s, max) < max ==> !occupied_in(s, chain_len(s, max) as int),
        forall|b: int| 0 <= b < chain_len(s, max) ==> occupied_in(s, b),
    decreases max,
{
    if max > 0 {
        lemma_chain_ends_free(s, (max - 1) as nat);
    }
}

/// After a walk the runners still share no base, base 0 is free for the
/// batter, and nobody has moved further than one base.
pub proof fn lemma_walk_in_order(s: Seq<Baserunner>, bound: int)
    requires
        distinct_bases(s),
        bases_below(s, bound),
        0 < bound <= 5,
    ensures
        distinct_bases(walk_of(s)),
        !occupied_in(walk_of(s), 0),
        bases_below(walk_of(s), bound + 1),
        walk_of(s).len() == s.len(),
{
    lemma_chain_ends_free(s, 5);
    let k = chain_len(s, 5);
    assert(!occupied_in(s, k as int)) by {
        if k == 5 && occupied_in(s, 5) {
            let i = choose|i: int| 0 <= i < s.len() && (#[trigger] s[i]).base == 5;
            assert(s[i].base < bound);
        }
    }
    lemma_push_chain_in_order(s, k);
    crate::bases::lemma_push_chain_shape(s, k, bound);
}

/// A batter who comes to a free base shares it with nobody.
pub proof fn lemma_push_in_order(s: Seq<Baserunner>, r: Baserunner)
    requires
        distinct_bases(s),
        !occupied_in(s, r.base as int),
    ensures
        distinct_bases(s.push(r)),
{
    let t = s.push(r);
    assert forall|i: int, j: int|
        0 <= i < t.len() && 0 <= j < t.len() && i != j implies (#[trigger] t[i]).base != (
    #[trigger] t[j]).base by {
        if i < s.len() && j < s.len() {
        } else if i < s.len() {
            assert(s[i].base != r.base);
        } else {
            assert(s[j].base != r.base);
        }
    }
}

/// What one tick keeps of the runners: they stay in order.
#[verifier::opaque]
pub open spec fn keeps_runners(e: EventView, g: GameView, w: WorldView) -> bool {
    runners_in_order(after_event(e, g, w).0)
}

/// A sweep leaves the runners in order if they shared no base before it.
pub proof fn lemma_sweep_in_order(g: GameView, w: WorldView)
    requires
        g.base_number == 4 || g.base_number == 5,
        distinct_bases(g.runners),
    ensures
        runners_in_order(swept(g, w).0),
        runners_in_order(closed_pa(g, w).0),
        forall|b: int| !occupied_in(g.runners, b) ==> !occupied_in(swept(g, w).0.runners, b),
{
    lemma_staying_in_order(g.runners, g.base_number - 1);
    assert(swept(g, w).0.runners == staying(g.runners, g.base_number - 1));
    assert(closed_pa(g, w).0.runners == swept(g, w).0.runners);
}

/// A bystander, the salmon and the events of the count leave the runners
/// as they are.
pub proof fn lemma_runners_untouched(e: EventView, g: GameView, w: WorldView)
    requires
        runners_in_order(g),
        is_bystander(e) || e is Salmon || e is Ball || e is Strike || e is Foul || e is Zap || e
            is Strikeout,
    ensures
        keeps_runners(e, g, w),
{
    reveal(keeps_runners);
    assert(after_event(e, g, w).0.runners == g.runners);
    assert(after_event(e, g, w).0.base_number == g.base_number);
}

/// A walk, or a batter hit by a pitch, leaves the runners in order.
pub proof fn lemma_walk_keeps_runners(e: EventView, g: GameView, w: WorldView)
    requires
        runners_in_order(g),
        e is Walk || e is HitByPitch,
    ensures
        keeps_runners(e, g, w),
{
    reveal(keeps_runners);
    let g1 = GameView { events: g.events.push(tag_of(e)), ..g };
    let b = g.scoreboard.batting().batter->0;
    let batter = Baserunner { id: b, base: 0 };
    lemma_walk_in_order(g.runners, g.base_number - 1);
    lemma_push_in_order(walk_of(g.runners), batter);
    let g2 = with_runners(g1, walk_of(g.runners).push(batter));
    assert forall|ww: WorldView| runners_in_order(#[trigger] closed_pa(g2, ww).0) by {
        lemma_sweep_in_order(g2, ww);
    }
}

/// A steal to a free base, and a runner caught stealing, leave the
/// runners in order.
pub proof fn lemma_steal_keeps_runners(e: EventView, g: GameView, w: WorldView)
    requires
        runners_in_order(g),
        e matches EventView::BaseSteal { base_from, .. } ==> !occupied_in(
            g.runners,
            base_from + 1,
        ) && base_from < 255,
        e is BaseSteal || e is CaughtStealing,
    ensures
        keeps_runners(e, g, w),
{
    reveal(keeps_runners);
    let g1 = GameView { events: g.events.push(tag_of(e)), ..g };
    match e {
        EventView::BaseSteal { base_from, .. } => {
            lemma_advance_first_in_order(g.runners, base_from as int);
            lemma_sweep_in_order(
                with_runners(g1, advance_first(g.runners, base_from as int)),
                w,
            );
        },
        EventView::CaughtStealing { base_from, .. } => {
            lemma_removed_first_in_order(g.runners, base_from as int);
        },
        _ => {},
    }
}

/// The event of a pitch leaves the runners in order, however the pitch
/// ends.
pub proof fn lemma_outcome_keeps_runners(g: GameView, w: WorldView, o: PitchOutcomeView)
    requires
        runners_in_order(g),
    ensures
        keeps_runners(event_of_outcome(g, w, o), g, w),
{
    let e = event_of_outcome(g, w, o);
    let tag = tag_of(e);
    let g1 = GameView { events: g.events.push(tag), ..g };
    let b = g.scoreboard.batting().batter->0;
    let r = g.runners;
    let n = g.base_number;
    match o {
        PitchOutcomeView::Ball => {
            if e is Walk {
                lemma_walk_keeps_runners(e, g, w);
            } else {
                lemma_runners_untouched(e, g, w);
            }
        },
        PitchOutcomeView::StrikeSwinging => {
            lemma_runners_untouched(e, g, w);
        },
        PitchOutcomeView::StrikeLooking => {
            lemma_runners_untouched(e, g, w);
        },
        PitchOutcomeView::Foul => {
            lemma_runners_untouched(e, g, w);
        },
        PitchOutcomeView::GroundOut { advancing_runners, .. } => {
            reveal(keeps_runners);
            lemma_advance_if_in_order(r, advancing_runners, 0);
            let ra = advance_if_from(r, advancing_runners, 0);
            assert forall|gg: GameView, ww: WorldView|
                gg.runners == ra && gg.base_number == n implies runners_in_order(
                #[trigger] closed_pa(gg, ww).0,
            ) by {
                lemma_sweep_in_order(gg, ww);
            }
        },
        PitchOutcomeView::Flyout { advancing_runners, .. } => {
            reveal(keeps_runners);
            lemma_advance_if_in_order(r, advancing_runners, 0);
            let ra = advance_if_from(r, advancing_runners, 0);
            assert forall|gg: GameView, ww: WorldView|
                gg.runners == ra && gg.base_number == n implies runners_in_order(
                #[trigger] closed_pa(gg, ww).0,
            ) by {
                lemma_sweep_in_order(gg, ww);
            }
        },
        PitchOutcomeView::DoublePlay { runner_out } => {
            reveal(keeps_runners);
            lemma_removed_first_in_order(r, runner_out as int);
            lemma_advance_each_in_order(removed_first(r, runner_out as int), 1);
            let ra = advance_each(removed_first(r, runner_out as int), 1);
            assert forall|gg: GameView, ww: WorldView|
                gg.runners == ra && gg.base_number == n implies runners_in_order(
                #[trigger] closed_pa(gg, ww).0,
            ) by {
                lemma_sweep_in_order(gg, ww);
            }
        },
        PitchOutcomeView::FieldersChoice { runner_out } => {
            reveal(keeps_runners);
            lemma_removed_first_in_order(r, runner_out as int);
            lemma_advance_each_in_order(removed_first(r, runner_out as int), 1);
            let ra = advance_each(removed_first(r, runner_out as int), 1);
            assert(!occupied_in(ra, 0)) by {
                if occupied_in(ra, 0) {
                    let i = choose|i: int| 0 <= i < ra.len() && (#[trigger] ra[i]).base == 0;
                    assert(ra[i].base == removed_first(r, runner_out as int)[i].base + 1);
                }
            }
            let batter = Baserunner { id: b, base: 0 };
            lemma_push_in_order(ra, batter);
            assert forall|gg: GameView, ww: WorldView|
                gg.runners == ra.push(batter) && gg.base_number == n implies runners_in_order(
                #[trigger] closed_pa(gg, ww).0,
            ) by {
                lemma_sweep_in_order(gg, ww);
            }
        },
        PitchOutcomeView::HomeRun => {
            reveal(keeps_runners);
            lemma_home_run_clears_bases(g, w);
            assert(after_event(e, g, w).0.base_number == n);
        },
        PitchOutcomeView::Triple { advancing_runners } => {
            lemma_hit_keeps_runners(g, w, 3, advancing_runners);
        },
        PitchOutcomeView::Double { advancing_runners } => {
            lemma_hit_keeps_runners(g, w, 2, advancing_runners);
        },
        PitchOutcomeView::Single { advancing_runners } => {
            lemma_hit_keeps_runners(g, w, 1, advancing_runners);
        },
    }
}

/// A hit leaves the runners in order: all move up by the bases of the
/// hit, some by one more, and the batter comes to the base behind them.
pub proof fn lemma_hit_keeps_runners(g: GameView, w: WorldView, bases: u8, advancing: Seq<u128>)
    requires
        runners_in_order(g),
        1 <= bases <= 3,
    ensures
        keeps_runners(
            EventView::BaseHit {
                bases,
                runners_after: advance_if_from(advance_each(g.runners, bases as int), advancing, 0),
            },
            g,
            w,
        ),
{
    reveal(keeps_runners);
    let r = g.runners;
    let n = g.base_number;
    let b = g.scoreboard.batting().batter->0;
    lemma_advance_each_in_order(r, bases as int);
    let moved_up = advance_each(r, bases as int);
    lemma_advance_if_in_order(moved_up, advancing, 0);
    let ra = advance_if_from(moved_up, advancing, 0);
    assert(!occupied_in(ra, bases - 1)) by {
        if occupied_in(ra, bases - 1) {
            let i = choose|i: int| 0 <= i < ra.len() && (#[trigger] ra[i]).base == bases - 1;
            assert(moved_up[i].base <= ra[i].base);
            assert(moved_up[i].base == r[i].base + bases);
        }
    }
    let batter = Baserunner { id: b, base: (bases - 1) as u8 };
    assert forall|gg: GameView, ww: WorldView|
        gg.runners == ra && gg.base_number == n implies runners_in_order(
        with_runners(
            (#[trigger] swept(gg, ww)).0,
            swept(gg, ww).0.runners.push(batter),
        ),
    ) by {
        lemma_sweep_in_order(gg, ww);
        let kept = swept(gg, ww).0.runners;
        lemma_push_in_order(kept, batter);
        assert forall|i: int| 0 <= i < kept.push(batter).len() implies (#[trigger] kept.push(
            batter,
        )[i]).base < n - 1 by {
            if i < kept.len() {
                assert(kept[i].base < n - 1);
            }
        }
    }
}

/// One tick leaves the runners in order: no two of them share a base, and
/// each stands short of home plate.
pub proof fn lemma_tick_keeps_runners(
    g: GameView,
    w: WorldView,
    t: PitchThresholdsView,
    s: RngState,
    fresh: u128,
)
    requires
        runners_in_order(g),
    ensures
        keeps_runners(tick_event(g, w, t, s, fresh).0, g, w),
{
    reveal_with_fuel(tick_from, 8);
    let e = tick_event(g, w, t, s, fresh).0;
    let r0 = phase_event(phases()[0], g, w, t, s, fresh);
    if r0.0 is None {
        let r1 = phase_event(phases()[1], g, w, t, r0.1, fresh);
        if r1.0 is None {
            let r2 = phase_event(phases()[2], g, w, t, r1.1, fresh);
            if r2.0 is None {
                let r3 = phase_event(phases()[3], g, w, t, r2.1, fresh);
                lemma_weather_is_bystander(g, w, r2.1, fresh);
                if r3.0 is None {
                    let r4 = phase_event(phases()[4], g, w, t, r3.1, fresh);
                    if r4.0 is None {
                        let r5 = phase_event(phases()[5], g, w, t, r4.1, fresh);
                        lemma_steal_shape(g, step_state(r4.1), 4);
                        if r5.0 is None {
                            lemma_outcome_keeps_runners(g, w, pitch_outcome(g, w, t, r5.1).0);
                            assert(e == pitch_event(g, w, t, r5.1).0);
                        } else {
                            assert(e == r5.0->0);
                            lemma_steal_keeps_runners(e, g, w);
                        }
                    } else {
                        assert(e == r4.0->0);
                        if e is Zap {
                            lemma_runners_untouched(e, g, w);
                        } else {
                            lemma_walk_keeps_runners(e, g, w);
                        }
                    }
                } else {
                    assert(e == r3.0->0);
                    lemma_runners_untouched(e, g, w);
                }
            } else {
                assert(e == r2.0->0);
                lemma_runners_untouched(e, g, w);
            }
        } else {
            assert(e == r1.0->0);
            lemma_runners_untouched(e, g, w);
        }
    } else {
        assert(e == r0.0->0);
        if e is GameOver {
            lemma_runners_untouched(e, g, w);
        } else {
            reveal(keeps_runners);
        }
    }
}

/// The number of runners from position `k` on who have reached `home`.
pub open spec fn scorers_from(runners: Seq<Baserunner>, home: int, k: int) -> nat
    decreases runners.len() - k,
{
    if k < 0 || k >= runners.len() {
        0
    } else if runners[k].base >= home {
        1 + scorers_from(runners, home, k + 1)
    } else {
        scorers_from(runners, home, k + 1)
    }
}

/// What the runners from position `k` on who have reached `home` add to
/// the value of their runs, being wired or tired.
pub open spec fn extras_from(
    runners: Seq<Baserunner>,
    home: int,
    players: Map<u128, PlayerView>,
    k: int,
) -> int
    decreases runners.len() - k,
{
    if k < 0 || k >= runners.len() {
        0
    } else if runners[k].base >= home {
        runner_run_value(players[runners[k].id].mods) + extras_from(runners, home, players, k + 1)
    } else {
        extras_from(runners, home, players, k + 1)
    }
}

/// Taking a badge off does not touch the other badges.
pub proof fn lemma_without_mod_keeps_others(mods: Seq<ModWithLifetime>, gone: Mod, m: Mod)
    requires
        m != gone,
    ensures
        seq_has_mod(without_mod(mods, gone), m) == seq_has_mod(mods, m),
{
    let pred = crate::mods::is_other_mod(gone);
    let kept = without_mod(mods, gone);
    if seq_has_mod(mods, m) {
        let i = choose|i: int| 0 <= i < mods.len() && (#[trigger] mods[i]).the_mod == m;
        mods.lemma_filter_contains(pred, i);
        let j = choose|j: int| 0 <= j < kept.len() && kept[j] == mods[i];
        assert(kept[j].the_mod == m);
    }
    if seq_has_mod(kept, m) {
        let j = choose|j: int| 0 <= j < kept.len() && (#[trigger] kept[j]).the_mod == m;
        assert(kept.contains(kept[j]));
        mods.lemma_filter_contains_rev(pred, kept[j]);
        let i = choose|i: int| 0 <= i < mods.len() && mods[i] == kept[j];
        assert(mods[i].the_mod == m);
    }
}

/// Whether two maps of players agree on what each adds to a run.
pub open spec fn same_extras(a: Map<u128, PlayerView>, b: Map<u128, PlayerView>) -> bool {
    forall|id: u128| runner_run_value((#[trigger] a[id]).mods) == runner_run_value(b[id].mods)
}

/// The runs that a sweep credits are one run value for each runner who
/// has reached home, and what those runners add to it.
pub proof fn lemma_credit_by_scorer(
    runners: Seq<Baserunner>,
    home: int,
    value: i64,
    outs: i16,
    players: Map<u128, PlayerView>,
    before: Map<u128, PlayerView>,
    k: int,
)
    requires
        0 <= k,
        same_extras(players, before),
    ensures
        credited(runners, home, value, outs, players, k).0 == value * scorers_from(
            runners,
            home,
            k,
        ) + extras_from(runners, home, before, k),
    decreases runners.len() - k,
{
    if k < runners.len() {
        if runners[k].base >= home {
            let p = players[runners[k].id];
            let refill = seq_has_mod(p.mods, Mod::FreeRefill);
            let outs2 = if refill && outs > 0 {
                (outs - 1) as i16
            } else {
                outs
            };
            let players2 = if refill {
                players.insert(
                    runners[k].id,
                    PlayerView { mods: without_mod(p.mods, Mod::FreeRefill), ..p },
                )
            } else {
                players
            };
            assert(same_extras(players2, before)) by {
                lemma_without_mod_keeps_others(p.mods, Mod::FreeRefill, Mod::Wired);
                lemma_without_mod_keeps_others(p.mods, Mod::FreeRefill, Mod::Tired);
                assert forall|id: u128|
                    runner_run_value((#[trigger] players2[id]).mods) == runner_run_value(
                        before[id].mods,
                    ) by {
                    assert(runner_run_value(players[id].mods) == runner_run_value(before[id].mods));
                }
            }
            lemma_credit_by_scorer(runners, home, value, outs2, players2, before, k + 1);
            let c = scorers_from(runners, home, k + 1) as int;
            assert(value * (1 + c) == value + value * c) by (nonlinear_arith);
            assert(runner_run_value(p.mods) == runner_run_value(before[runners[k].id].mods));
        } else {
            lemma_credit_by_scorer(runners, home, value, outs, players, before, k + 1);
        }
    } else {
        assert(value * 0 == 0);
    }
}

/// The runners who have reached `home` are as many from position `k` on
/// as the sweep takes off from there.
pub proof fn lemma_scorers_are_swept(runners: Seq<Baserunner>, home: int)
    ensures
        scorers_from(runners, home, 0) == scoring(runners, home).len(),
        scorers_from(runners, home, 0) == runners.len() - staying(runners, home).len(),
{
    lemma_scorers_count(runners, home, 0);
    assert(runners.skip(0) =~= runners);
    crate::game::lemma_swept_are_scoring(runners, home);
}

/// The same count, taken over the runners from position `k` on.
pub proof fn lemma_scorers_count(runners: Seq<Baserunner>, home: int, k: int)
    requires
        0 <= k <= runners.len(),
    ensures
        scorers_from(runners, home, k) == scoring(runners.skip(k), home).len(),
    decreases runners.len() - k,
{
    reveal(Seq::filter);
    let pred = has_reached(home);
    if k < runners.len() {
        lemma_scorers_count(runners, home, k + 1);
        let tail = runners.skip(k);
        assert(tail =~= seq![runners[k]] + runners.skip(k + 1));
        Seq::filter_distributes_over_add(seq![runners[k]], runners.skip(k + 1), pred);
        assert(seq![runners[k]].drop_last() =~= Seq::<Baserunner>::empty());
        assert(seq![runners[k]].last() == runners[k]);
        assert(Seq::<Baserunner>::empty().filter(pred) =~= Seq::<Baserunner>::empty());
        if pred(runners[k]) {
            assert(seq![runners[k]].filter(pred) =~= seq![runners[k]]);
        } else {
            assert(seq![runners[k]].filter(pred) =~= Seq::<Baserunner>::empty());
        }
    } else {
        assert(runners.skip(k) =~= Seq::<Baserunner>::empty());
    }
}

/// Each runner whom the sweep takes off is credited with exactly one run
/// value, and with what the runner adds to it: while fewer than three are
/// out, the batting team's score goes up by the run value times the number
/// of swept runners, and by what those runners add.
pub proof fn lemma_each_swept_runner_is_credited(g: GameView, w: WorldView)
    requires
        g.outs < 3,
    ensures
        ({
            let swept_count = g.runners.len() - swept(g, w).0.runners.len();
            swept(g, w).0.scoreboard.batting().score == crate::entities::clamped_sum(
                g.scoreboard.batting().score as int,
                run_value(g) * swept_count + extras_from(
                    g.runners,
                    g.base_number - 1,
                    w.players,
                    0,
                ),
            )
        }),
{
    lemma_credit_by_scorer(
        g.runners,
        g.base_number - 1,
        run_value(g),
        g.outs,
        w.players,
        w.players,
        0,
    );
    lemma_scorers_are_swept(g.runners, g.base_number - 1);
}

/// A home run scores the batter and every runner, with four bases or
/// with five: while fewer than three are out, the score of the team at bat
/// goes up by the run value for the batter, and then by the run value for
/// each runner and by what the runners add to it.
pub proof fn lemma_home_run_scores_everybody(g: GameView, w: WorldView)
    requires
        g.outs < 3,
        g.base_number >= 1,
        bases_below(g.runners, 256 - g.base_number),
    ensures
        ({
            let e = EventView::HomeRun;
            let b = g.scoreboard.batting().batter->0;
            let fed = crate::events::fed(w, b, tag_of(e));
            let hot = crate::events::with_mods(
                fed,
                b,
                crate::events::spiced_up(fed.players[b].mods, fed.players[b].feed),
            );
            after_event(e, g, w).0.scoreboard.batting().score == crate::entities::clamped_sum(
                crate::entities::clamped_sum(
                    g.scoreboard.batting().score as int,
                    run_value(g) as int,
                ) as int,
                run_value(g) * g.runners.len() + extras_from(
                    advance_each(g.runners, g.base_number as int),
                    g.base_number - 1,
                    hot.players,
                    0,
                ),
            )
        }),
{
    let e = EventView::HomeRun;
    let g1 = GameView { events: g.events.push(tag_of(e)), ..g };
    let b = g.scoreboard.batting().batter->0;
    let fed = crate::events::fed(w, b, tag_of(e));
    let hot = crate::events::with_mods(
        fed,
        b,
        crate::events::spiced_up(fed.players[b].mods, fed.players[b].feed),
    );
    let moved_up = advance_each(g.runners, g.base_number as int);
    let g2 = with_runners(
        crate::events::with_score(g1, !g1.scoreboard.top, run_value(g1) as int),
        moved_up,
    );
    lemma_each_swept_runner_is_credited(g2, hot);
    lemma_all_reached(moved_up, g.base_number - 1);
    assert(run_value(g2) == run_value(g));
    assert(swept(g2, hot).0.runners.len() == 0);
}

} // verus!
