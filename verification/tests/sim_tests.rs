use sandbox::entities::{Player, Team, World};
use sandbox::events::Event;
use sandbox::formulas::{
    FielderThresholds, PitchThresholds, Threshold, REVERBERATING_CHANCE, STEAL_ATTEMPT_CHANCE,
    STEAL_SUCCESS_CHANCE, ZAP_CHANCE,
};
use sandbox::game::{Game, Weather};
use sandbox::mods::{Mod, ModLifetime, Mods};
use sandbox::rng::{pick_index, Rng, DRAW_SPAN};
use sandbox::sim::{
    batter_state, do_pitch, extra_weather, inning_state, modifier, next_event, pitch, stealing,
    PitchOutcome, Plugin, Sim,
};

const NEVER: Threshold = Threshold { lt: 0, le: 0 };
const ALWAYS: Threshold = Threshold { lt: DRAW_SPAN, le: DRAW_SPAN };

fn player(id: u128, team: u128) -> Player {
    let mut rng = Rng::new(id as u64, 1);
    let mut p = Player::new(&mut rng);
    p.id = id;
    p.team = Some(team);
    p
}

fn team(id: u128) -> Team {
    Team {
        id,
        name: format!("Team {}", id),
        emoji: String::from("*"),
        lineup: (1..=9).map(|k| id + k).collect(),
        rotation: (11..=15).map(|k| id + k).collect(),
        shadows: (21..=25).map(|k| id + k).collect(),
        wins: 0,
        losses: 0,
        postseason_wins: 0,
        postseason_losses: 0,
        partying: false,
        fate: 0,
        mods: Mods::new(),
    }
}

fn world() -> World {
    let mut world = World::new(11);
    for t in [100u128, 200] {
        let tm = team(t);
        for id in tm.lineup.iter().chain(tm.rotation.iter()).chain(tm.shadows.iter()) {
            world.insert_player(player(*id, t));
        }
        world.insert_team(tm);
    }
    world
}

fn game(world: &World, weather: Weather) -> Game {
    let mut rng = Rng::new(1, 1);
    let mut g = Game::new(100, 200, 0, Some(weather), world, &mut rng);
    g.assign_batter(201);
    g
}

fn table(runners: usize, each: Threshold) -> PitchThresholds {
    PitchThresholds {
        strike: each,
        swing_strike: each,
        swing_ball: each,
        contact_strike: each,
        contact_ball: each,
        foul: each,
        home_run: each,
        sacrifice: each,
        fielders: (0..9)
            .map(|_| FielderThresholds {
                out: each,
                fly: each,
                double_play: each,
                triple: each,
                double: each,
                groundout_advance: vec![each; runners],
                hit_advance: vec![each; runners],
            })
            .collect(),
        flyout_advance: vec![each; runners],
    }
}

fn seeded(seed: u64) -> (Rng, Rng) {
    let mut a = Rng::new(seed, seed.wrapping_mul(77) + 5);
    let mut b = Rng::new(seed, seed.wrapping_mul(77) + 5);
    for _ in 0..8 {
        a.next();
        b.next();
    }
    (a, b)
}

fn layout(e: &Event) -> Vec<(u128, u8)> {
    let r = match e {
        Event::BaseHit { runners_after, .. } => runners_after,
        Event::GroundOut { runners_after, .. } => runners_after,
        Event::Flyout { runners_after, .. } => runners_after,
        Event::DoublePlay { runners_after } => runners_after,
        Event::FieldersChoice { runners_after } => runners_after,
        _ => panic!("the event carries no runners"),
    };
    r.runners.iter().map(|x| (x.id, x.base)).collect()
}

#[test]
fn thresholds_compare_both_ways() {
    let t = Threshold { lt: 10, le: 11 };
    assert!(t.is_above(9));
    assert!(!t.is_above(10));
    assert!(!t.is_below(10));
    assert!(t.is_below(11));
    assert!(!NEVER.is_above(0));
    assert!(NEVER.is_below(0));
    assert!(ALWAYS.is_above(DRAW_SPAN - 1));
    assert!(!ALWAYS.is_below(DRAW_SPAN - 1));
}

#[test]
fn the_table_has_to_fit() {
    assert!(table(2, NEVER).fits(9, 2));
    assert!(!table(2, NEVER).fits(8, 2));
    assert!(!table(2, NEVER).fits(9, 3));
    let mut t = table(2, NEVER);
    t.fielders[8].hit_advance.pop();
    assert!(!t.fits(9, 2));
    let mut u = table(2, NEVER);
    u.fielders[0].groundout_advance.push(NEVER);
    assert!(!u.fits(9, 2));
}

#[test]
fn inning_state_says_nothing_before_the_third_out() {
    let w = world();
    let mut g = game(&w, Weather::Sun);
    g.outs = 2;
    assert!(inning_state(&g).is_none());
}

#[test]
fn inning_state_switches_halves() {
    let w = world();
    let mut g = game(&w, Weather::Sun);
    g.outs = 3;
    g.inning = 4;
    assert!(matches!(inning_state(&g), Some(Event::InningSwitch { inning: 4, top: false })));
    g.scoreboard.top = false;
    assert!(matches!(inning_state(&g), Some(Event::InningSwitch { inning: 5, top: true })));
}

#[test]
fn the_game_ends_by_the_rule_of_the_ninth() {
    let w = world();
    let mut g = game(&w, Weather::Sun);
    g.outs = 3;
    g.inning = 9;
    g.scoreboard.home_team.score = 30;
    g.scoreboard.away_team.score = 20;
    assert!(matches!(inning_state(&g), Some(Event::GameOver)));
    g.scoreboard.top = false;
    assert!(matches!(inning_state(&g), Some(Event::GameOver)));
    g.scoreboard.away_team.score = 40;
    assert!(matches!(inning_state(&g), Some(Event::GameOver)));
    g.scoreboard.top = true;
    assert!(matches!(inning_state(&g), Some(Event::InningSwitch { inning: 9, top: false })));
    g.scoreboard.away_team.score = 30;
    g.scoreboard.top = false;
    assert!(matches!(inning_state(&g), Some(Event::InningSwitch { inning: 10, top: true })));
    g.inning = 8;
    g.scoreboard.away_team.score = 0;
    assert!(matches!(inning_state(&g), Some(Event::InningSwitch { inning: 9, top: true })));
}

#[test]
fn the_first_batter_comes_up_without_a_draw() {
    let w = world();
    let mut g = game(&w, Weather::Sun);
    g.scoreboard.away_team.batter = None;
    let (mut rng, mut same) = seeded(1);
    let e = batter_state(&g, &w, &mut rng);
    assert!(matches!(e, Some(Event::BatterUp { batter: 201, reverberating: false })));
    assert_eq!(rng.next(), same.next());
    g.assign_batter(201);
    assert!(batter_state(&g, &w, &mut rng).is_none());
}

#[test]
fn the_batter_goes_by_the_place_in_the_lineup() {
    let w = world();
    let mut g = game(&w, Weather::Sun);
    g.events.add(String::from("strikeOut"));
    g.scoreboard.away_team.batter = None;
    g.scoreboard.away_team.batter_index = 12;
    let (mut rng, _) = seeded(1);
    let e = batter_state(&g, &w, &mut rng);
    assert!(matches!(e, Some(Event::BatterUp { batter: 204, reverberating: false })));
}

#[test]
fn a_shelled_batter_is_passed_over() {
    let mut w = world();
    w.player_mut(202).mods.add(Mod::Shelled, ModLifetime::Permanent);
    let mut g = game(&w, Weather::Sun);
    g.events.add(String::from("strikeOut"));
    g.scoreboard.away_team.batter = None;
    g.scoreboard.away_team.batter_index = 1;
    let (mut rng, _) = seeded(1);
    assert!(matches!(batter_state(&g, &w, &mut rng), Some(Event::Shelled { batter: 202 })));
}

#[test]
fn a_reverberating_batter_bats_again_on_a_low_draw() {
    let mut w = world();
    w.player_mut(201).mods.add(Mod::Reverberating, ModLifetime::Permanent);
    let mut g = game(&w, Weather::Sun);
    g.events.add(String::from("strikeOut"));
    g.scoreboard.away_team.batter = None;
    g.scoreboard.away_team.batter_index = 1;
    let mut again = 0;
    for seed in 0..400 {
        let (mut rng, mut same) = seeded(seed);
        let e = batter_state(&g, &w, &mut rng);
        if same.next() < REVERBERATING_CHANCE {
            assert!(matches!(e, Some(Event::BatterUp { batter: 201, reverberating: true })));
            again += 1;
        } else {
            assert!(matches!(e, Some(Event::BatterUp { batter: 202, reverberating: false })));
        }
        assert_eq!(rng.next(), same.next());
    }
    assert!(again > 40 && again < 120);
}

#[test]
fn nobody_reverberates_at_the_start_of_a_half() {
    let mut w = world();
    w.player_mut(201).mods.add(Mod::Reverberating, ModLifetime::Permanent);
    let mut g = game(&w, Weather::Sun);
    g.events.add(String::from("inningSwitch"));
    g.inning = 2;
    g.scoreboard.away_team.batter = None;
    g.scoreboard.away_team.batter_index = 1;
    for seed in 0..100 {
        let (mut rng, mut same) = seeded(seed);
        let e = batter_state(&g, &w, &mut rng);
        assert!(matches!(e, Some(Event::BatterUp { batter: 202, reverberating: false })));
        assert_eq!(rng.next(), same.next());
    }
}

#[test]
fn the_modifier_phase_takes_a_draw_only_where_a_chance_is_open() {
    let mut w = world();
    let g = game(&w, Weather::Sun);
    let (mut rng, mut same) = seeded(3);
    assert!(modifier(&g, &w, &mut rng).is_none());
    assert_eq!(rng.next(), same.next());
    w.player_mut(201).mods.add(Mod::Electric, ModLifetime::Permanent);
    let (mut rng, mut same) = seeded(3);
    assert!(modifier(&g, &w, &mut rng).is_none());
    assert_eq!(rng.next(), same.next());
}

#[test]
fn an_electric_batter_zaps_a_strike_away() {
    let mut w = world();
    w.player_mut(201).mods.add(Mod::Electric, ModLifetime::Permanent);
    let mut g = game(&w, Weather::Sun);
    g.strikes = 1;
    let mut zaps = 0;
    for seed in 0..300 {
        let (mut rng, mut same) = seeded(seed);
        let e = modifier(&g, &w, &mut rng);
        if same.next() < ZAP_CHANCE {
            assert!(matches!(e, Some(Event::Zap { batter: true })));
            zaps += 1;
        } else {
            assert!(e.is_none());
        }
        assert_eq!(rng.next(), same.next());
    }
    assert!(zaps > 30);
}

#[test]
fn a_pitcher_in_debt_hits_the_batter() {
    let mut w = world();
    w.player_mut(111).mods.add(Mod::Electric, ModLifetime::Permanent);
    w.player_mut(111).mods.add(Mod::DebtU, ModLifetime::Permanent);
    w.player_mut(111).mods.add(Mod::RefinancedDebt, ModLifetime::Permanent);
    let mut g = game(&w, Weather::Sun);
    g.balls = 1;
    let (mut hits0, mut hits1, mut zaps) = (0, 0, 0);
    for seed in 0..3000 {
        let (mut rng, mut same) = seeded(seed);
        let e = modifier(&g, &w, &mut rng);
        let expected = if same.next() < ZAP_CHANCE {
            zaps += 1;
            "zap"
        } else if same.next() < sandbox::formulas::HIT_BY_PITCH_CHANCE {
            hits0 += 1;
            "hbp0"
        } else if same.next() < sandbox::formulas::HIT_BY_PITCH_CHANCE {
            hits1 += 1;
            "hbp1"
        } else {
            "none"
        };
        match e {
            Some(Event::Zap { batter: false }) => assert_eq!(expected, "zap"),
            Some(Event::HitByPitch { target: 201, hbp_type: 0 }) => assert_eq!(expected, "hbp0"),
            Some(Event::HitByPitch { target: 201, hbp_type: 1 }) => assert_eq!(expected, "hbp1"),
            None => assert_eq!(expected, "none"),
            _ => panic!("another event"),
        }
        assert_eq!(rng.next(), same.next());
    }
    assert!(zaps > 0 && hits0 > 0 && hits1 > 0);
}

#[test]
fn an_unstable_batter_is_not_hit_by_a_pitcher_in_debt() {
    let mut w = world();
    w.player_mut(111).mods.add(Mod::DebtU, ModLifetime::Permanent);
    w.player_mut(201).mods.add(Mod::Unstable, ModLifetime::Week);
    let g = game(&w, Weather::Sun);
    for seed in 0..500 {
        let (mut rng, mut same) = seeded(seed);
        assert!(modifier(&g, &w, &mut rng).is_none());
        assert_eq!(rng.next(), same.next());
    }
}

#[test]
fn with_empty_bases_the_steal_phase_takes_one_draw() {
    let w = world();
    let g = game(&w, Weather::Sun);
    let (mut rng, mut same) = seeded(4);
    assert!(stealing(&g, &mut rng).is_none());
    same.next();
    assert_eq!(rng.next(), same.next());
}

#[test]
fn steals_go_from_the_highest_base_down() {
    let w = world();
    let mut g = game(&w, Weather::Sun);
    g.runners.add(0, 202);
    g.runners.add(2, 203);
    let (mut steals, mut caught, mut none) = (0, 0, 0);
    for seed in 0..4000 {
        let (mut rng, mut same) = seeded(seed);
        let e = stealing(&g, &mut rng);
        same.next();
        let mut expected: Option<(u128, u8, bool)> = None;
        for (runner, base) in [(203u128, 2u8), (202, 0)] {
            if same.next() < STEAL_ATTEMPT_CHANCE {
                expected = Some((runner, base, same.next() < STEAL_SUCCESS_CHANCE));
                break;
            }
        }
        match (e, expected) {
            (Some(Event::BaseSteal { runner, base_from, base_to }), Some((r, b, true))) => {
                assert_eq!((runner, base_from, base_to), (r, b, b + 1));
                steals += 1;
            }
            (Some(Event::CaughtStealing { runner, base_from }), Some((r, b, false))) => {
                assert_eq!((runner, base_from), (r, b));
                caught += 1;
            }
            (None, None) => none += 1,
            _ => panic!("the steal phase and its draws disagree"),
        }
        assert_eq!(rng.next(), same.next());
    }
    assert!(steals > 100 && caught > 20 && none > 3000);
}

#[test]
fn a_blocked_runner_does_not_steal() {
    let w = world();
    let mut g = game(&w, Weather::Sun);
    g.runners.add(0, 202);
    g.runners.add(1, 203);
    for seed in 0..2000 {
        let (mut rng, _) = seeded(seed);
        match stealing(&g, &mut rng) {
            Some(Event::BaseSteal { runner, base_from, .. }) => {
                assert_eq!((runner, base_from), (203, 1))
            }
            Some(Event::CaughtStealing { runner, base_from }) => {
                assert_eq!((runner, base_from), (203, 1))
            }
            None => {}
            _ => panic!("another event"),
        }
    }
}

#[test]
fn salmon_phase_needs_salmon_weather_a_switch_and_runs() {
    let w = world();
    let mut g = game(&w, Weather::Sun);
    g.events.add(String::from("inningSwitch"));
    g.linescore_away.push(20);
    let (mut rng, mut same) = seeded(5);
    assert!(extra_weather(&g, &mut rng).is_none());
    assert_eq!(rng.next(), same.next());
    let mut s = game(&w, Weather::Salmon);
    s.linescore_away.push(20);
    let (mut rng, mut same) = seeded(5);
    assert!(extra_weather(&s, &mut rng).is_none());
    assert_eq!(rng.next(), same.next());
    s.events.add(String::from("inningSwitch"));
    s.linescore_away.pop();
    s.linescore_away.push(0);
    let (mut rng, mut same) = seeded(5);
    assert!(extra_weather(&s, &mut rng).is_none());
    assert_eq!(rng.next(), same.next());
}

#[test]
fn salmon_phase_rolls() {
    let w = world();
    let mut g = game(&w, Weather::Salmon);
    g.scoreboard.top = false;
    g.events.add(String::from("inningSwitch"));
    g.linescore_away.push(20);
    g.linescore_home.push(30);
    let (mut some, mut lost) = (0, 0);
    for seed in 0..2000 {
        let (mut rng, mut same) = seeded(seed);
        let e = extra_weather(&g, &mut rng);
        if same.next() < sandbox::formulas::SALMON_CHANCE {
            some += 1;
            let runs_lost = same.next() < sandbox::formulas::SALMON_RUNS_LOST_CHANCE;
            match e {
                Some(Event::Salmon { home_runs_lost, away_runs_lost }) => {
                    assert!(!home_runs_lost);
                    assert_eq!(away_runs_lost, runs_lost);
                    if runs_lost {
                        lost += 1;
                    }
                }
                _ => panic!("no salmon"),
            }
        } else {
            assert!(e.is_none());
        }
        assert_eq!(rng.next(), same.next());
    }
    assert!(some > 150 && lost > 80);
}

#[test]
fn salmon_phase_with_both_teams_scoring() {
    let w = world();
    let mut g = game(&w, Weather::Salmon);
    g.events.add(String::from("inningSwitch"));
    g.inning = 2;
    g.linescore_away.push(20);
    g.linescore_home.push(30);
    let (mut both, mut one) = (0, 0);
    for seed in 0..6000 {
        let (mut rng, mut same) = seeded(seed);
        let e = extra_weather(&g, &mut rng);
        let expected = if !(same.next() < sandbox::formulas::SALMON_CHANCE) {
            None
        } else if !(same.next() < sandbox::formulas::SALMON_RUNS_LOST_CHANCE) {
            Some((false, false))
        } else if same.next() < sandbox::formulas::SALMON_BOTH_CHANCE {
            both += 1;
            Some((true, true))
        } else {
            one += 1;
            let home = same.next() < sandbox::formulas::EVEN_CHANCE;
            Some((home, !home))
        };
        match (e, expected) {
            (Some(Event::Salmon { home_runs_lost, away_runs_lost }), Some((h, a))) => {
                assert_eq!((home_runs_lost, away_runs_lost), (h, a))
            }
            (None, None) => {}
            _ => panic!("the salmon phase and its draws disagree"),
        }
        assert_eq!(rng.next(), same.next());
    }
    assert!(both > 20 && one > 100);
}

#[test]
fn a_pitch_outside_the_zone_that_is_not_swung_at_is_a_ball() {
    let w = world();
    let g = game(&w, Weather::Sun);
    let (mut rng, mut same) = seeded(1);
    let o = do_pitch(&w, &g, &mut rng, &table(0, NEVER));
    assert!(matches!(o, PitchOutcome::Ball));
    same.next();
    same.next();
    assert_eq!(rng.next(), same.next());
}

#[test]
fn a_flinching_batter_does_not_swing_and_takes_no_swing_draw() {
    let mut w = world();
    w.player_mut(201).mods.add(Mod::Flinch, ModLifetime::Permanent);
    let mut g = game(&w, Weather::Sun);
    let (mut rng, mut same) = seeded(1);
    let o = do_pitch(&w, &g, &mut rng, &table(0, ALWAYS));
    assert!(matches!(o, PitchOutcome::StrikeLooking));
    same.next();
    assert_eq!(rng.next(), same.next());
    g.strikes = 1;
    let (mut rng, _) = seeded(1);
    let o = do_pitch(&w, &g, &mut rng, &table(0, ALWAYS));
    assert!(matches!(o, PitchOutcome::Foul));
}

#[test]
fn strike_swinging_and_foul() {
    let w = world();
    let g = game(&w, Weather::Sun);
    let mut t = table(0, ALWAYS);
    t.contact_strike = NEVER;
    let (mut rng, mut same) = seeded(2);
    assert!(matches!(do_pitch(&w, &g, &mut rng, &t), PitchOutcome::StrikeSwinging));
    for _ in 0..3 {
        same.next();
    }
    assert_eq!(rng.next(), same.next());
    let (mut rng, mut same) = seeded(2);
    assert!(matches!(do_pitch(&w, &g, &mut rng, &table(0, ALWAYS)), PitchOutcome::Foul));
    for _ in 0..4 {
        same.next();
    }
    assert_eq!(rng.next(), same.next());
}

#[test]
fn a_swing_at_a_ball_uses_the_thresholds_for_balls() {
    let w = world();
    let g = game(&w, Weather::Sun);
    let mut t = table(0, ALWAYS);
    t.strike = NEVER;
    t.swing_strike = NEVER;
    t.contact_strike = NEVER;
    let (mut rng, _) = seeded(2);
    assert!(matches!(do_pitch(&w, &g, &mut rng, &t), PitchOutcome::Foul));
    t.contact_ball = NEVER;
    let (mut rng, _) = seeded(2);
    assert!(matches!(do_pitch(&w, &g, &mut rng, &t), PitchOutcome::StrikeSwinging));
    t.swing_ball = NEVER;
    let (mut rng, _) = seeded(2);
    assert!(matches!(do_pitch(&w, &g, &mut rng, &t), PitchOutcome::Ball));
}

fn in_play(runners: usize) -> PitchThresholds {
    let mut t = table(runners, ALWAYS);
    t.foul = NEVER;
    t
}

#[test]
fn the_out_roll_is_an_out_when_it_lies_above_the_threshold() {
    let w = world();
    let g = game(&w, Weather::Sun);
    let mut t = in_play(0);
    for f in t.fielders.iter_mut() {
        f.out = NEVER;
    }
    let (mut rng, _) = seeded(3);
    assert!(matches!(do_pitch(&w, &g, &mut rng, &t), PitchOutcome::Flyout { .. }));
    let (mut rng, _) = seeded(3);
    assert!(matches!(do_pitch(&w, &g, &mut rng, &in_play(0)), PitchOutcome::HomeRun));
}

#[test]
fn a_flyout_takes_a_draw_for_each_runner() {
    let w = world();
    let mut g = game(&w, Weather::Sun);
    g.runners.add(2, 202);
    g.runners.add(0, 203);
    let mut t = in_play(2);
    for f in t.fielders.iter_mut() {
        f.out = NEVER;
    }
    t.flyout_advance = vec![ALWAYS, NEVER];
    let (mut rng, mut same) = seeded(3);
    let o = do_pitch(&w, &g, &mut rng, &t);
    for _ in 0..6 {
        same.next();
    }
    let fly_fielder = 101 + pick_index(same.next(), 9) as u128;
    same.next();
    same.next();
    same.next();
    match o {
        PitchOutcome::Flyout { fielder, advancing_runners } => {
            assert_eq!(fielder, fly_fielder);
            assert_eq!(advancing_runners, vec![202]);
        }
        _ => panic!("no flyout"),
    }
    assert_eq!(rng.next(), same.next());
}

#[test]
fn a_ground_out_with_empty_bases_takes_no_further_draw() {
    let w = world();
    let g = game(&w, Weather::Sun);
    let mut t = in_play(0);
    for f in t.fielders.iter_mut() {
        f.out = NEVER;
        f.fly = NEVER;
    }
    let (mut rng, mut same) = seeded(3);
    let o = do_pitch(&w, &g, &mut rng, &t);
    for _ in 0..8 {
        same.next();
    }
    let ground_fielder = 101 + pick_index(same.next(), 9) as u128;
    match o {
        PitchOutcome::GroundOut { fielder, advancing_runners } => {
            assert_eq!(fielder, ground_fielder);
            assert!(advancing_runners.is_empty());
        }
        _ => panic!("no ground out"),
    }
    assert_eq!(rng.next(), same.next());
}

fn grounder(runners: usize) -> PitchThresholds {
    let mut t = in_play(runners);
    for f in t.fielders.iter_mut() {
        f.out = NEVER;
        f.fly = NEVER;
    }
    t
}

#[test]
fn a_double_play_needs_a_runner_on_first_and_fewer_than_two_out() {
    let w = world();
    let mut g = game(&w, Weather::Sun);
    g.runners.add(0, 202);
    g.runners.add(1, 203);
    g.outs = 1;
    let (mut rng, mut same) = seeded(3);
    let o = do_pitch(&w, &g, &mut rng, &grounder(2));
    for _ in 0..10 {
        same.next();
    }
    let picked = pick_index(same.next(), 2) as u8;
    assert!(matches!(o, PitchOutcome::DoublePlay { runner_out } if runner_out == picked));
    assert_eq!(rng.next(), same.next());

    g.outs = 2;
    let (mut rng, _) = seeded(3);
    let o = do_pitch(&w, &g, &mut rng, &grounder(2));
    assert!(matches!(o, PitchOutcome::GroundOut { .. }));
}

#[test]
fn a_failed_sacrifice_is_a_fielders_choice() {
    let w = world();
    let mut g = game(&w, Weather::Sun);
    g.runners.add(0, 202);
    g.runners.add(1, 203);
    let mut t = grounder(2);
    for f in t.fielders.iter_mut() {
        f.double_play = NEVER;
    }
    t.sacrifice = NEVER;
    let (mut rng, mut same) = seeded(3);
    let o = do_pitch(&w, &g, &mut rng, &t);
    assert!(matches!(o, PitchOutcome::FieldersChoice { runner_out: 1 }));
    for _ in 0..11 {
        same.next();
    }
    assert_eq!(rng.next(), same.next());
    t.sacrifice = ALWAYS;
    let (mut rng, mut same) = seeded(3);
    let o = do_pitch(&w, &g, &mut rng, &t);
    match o {
        PitchOutcome::GroundOut { advancing_runners, .. } => {
            assert_eq!(advancing_runners, vec![202, 203])
        }
        _ => panic!("no ground out"),
    }
    for _ in 0..13 {
        same.next();
    }
    assert_eq!(rng.next(), same.next());
}

#[test]
fn with_first_base_empty_the_runners_roll_to_advance() {
    let w = world();
    let mut g = game(&w, Weather::Sun);
    g.runners.add(1, 202);
    g.runners.add(2, 203);
    let mut t = grounder(2);
    for f in t.fielders.iter_mut() {
        f.groundout_advance = vec![NEVER, ALWAYS];
    }
    let (mut rng, mut same) = seeded(3);
    let o = do_pitch(&w, &g, &mut rng, &t);
    match o {
        PitchOutcome::GroundOut { advancing_runners, .. } => assert_eq!(advancing_runners, vec![203]),
        _ => panic!("no ground out"),
    }
    for _ in 0..12 {
        same.next();
    }
    assert_eq!(rng.next(), same.next());
}

#[test]
fn hits_by_size() {
    let w = world();
    let mut g = game(&w, Weather::Sun);
    g.runners.add(0, 202);
    let mut t = in_play(1);
    t.home_run = NEVER;
    let (mut rng, mut same) = seeded(3);
    assert!(matches!(do_pitch(&w, &g, &mut rng, &t), PitchOutcome::Triple { .. }));
    for _ in 0..11 {
        same.next();
    }
    assert_eq!(rng.next(), same.next());
    for f in t.fielders.iter_mut() {
        f.triple = NEVER;
    }
    let (mut rng, _) = seeded(3);
    assert!(matches!(do_pitch(&w, &g, &mut rng, &t), PitchOutcome::Double { .. }));
    for f in t.fielders.iter_mut() {
        f.double = NEVER;
        f.hit_advance = vec![NEVER];
    }
    let (mut rng, _) = seeded(3);
    match do_pitch(&w, &g, &mut rng, &t) {
        PitchOutcome::Single { advancing_runners } => assert!(advancing_runners.is_empty()),
        _ => panic!("no single"),
    }
}

#[test]
fn the_count_decides_between_ball_and_walk() {
    let mut w = world();
    let mut g = game(&w, Weather::Sun);
    let (mut rng, _) = seeded(1);
    g.balls = 2;
    assert!(matches!(pitch(&g, &w, &mut rng, &table(0, NEVER)), Event::Ball));
    g.balls = 3;
    assert!(matches!(pitch(&g, &w, &mut rng, &table(0, NEVER)), Event::Walk));
    w.player_mut(201).mods.add(Mod::WalkInThePark, ModLifetime::Permanent);
    g.balls = 1;
    assert!(matches!(pitch(&g, &w, &mut rng, &table(0, NEVER)), Event::Ball));
    g.balls = 2;
    assert!(matches!(pitch(&g, &w, &mut rng, &table(0, NEVER)), Event::Walk));
}

#[test]
fn the_count_decides_between_strike_and_strikeout() {
    let mut w = world();
    let mut g = game(&w, Weather::Sun);
    let mut looking = table(0, ALWAYS);
    looking.swing_strike = NEVER;
    let (mut rng, _) = seeded(1);
    g.strikes = 1;
    assert!(matches!(pitch(&g, &w, &mut rng, &looking), Event::Strike));
    g.strikes = 2;
    assert!(matches!(pitch(&g, &w, &mut rng, &looking), Event::Strikeout));
    w.team_mut(200).mods.add(Mod::FourthStrike, ModLifetime::Season);
    assert!(matches!(pitch(&g, &w, &mut rng, &looking), Event::Strike));
    g.strikes = 3;
    assert!(matches!(pitch(&g, &w, &mut rng, &looking), Event::Strikeout));
    let mut swinging = table(0, ALWAYS);
    swinging.contact_strike = NEVER;
    assert!(matches!(pitch(&g, &w, &mut rng, &swinging), Event::Strikeout));
}

#[test]
fn a_hit_moves_the_runners() {
    let w = world();
    let mut g = game(&w, Weather::Sun);
    g.runners.add(1, 202);
    g.runners.add(0, 203);
    let mut t = in_play(2);
    t.home_run = NEVER;
    for f in t.fielders.iter_mut() {
        f.triple = NEVER;
        f.double = NEVER;
        f.hit_advance = vec![ALWAYS, ALWAYS];
    }
    let (mut rng, _) = seeded(3);
    let e = pitch(&g, &w, &mut rng, &t);
    assert!(matches!(e, Event::BaseHit { bases: 1, .. }));
    assert_eq!(layout(&e), vec![(202, 3), (203, 2)]);
    for f in t.fielders.iter_mut() {
        f.double = ALWAYS;
        f.hit_advance = vec![NEVER, ALWAYS];
    }
    let (mut rng, _) = seeded(3);
    let e = pitch(&g, &w, &mut rng, &t);
    assert!(matches!(e, Event::BaseHit { bases: 2, .. }));
    assert_eq!(layout(&e), vec![(202, 3), (203, 2)]);
    for f in t.fielders.iter_mut() {
        f.triple = ALWAYS;
        f.hit_advance = vec![NEVER, NEVER];
    }
    let (mut rng, _) = seeded(3);
    let e = pitch(&g, &w, &mut rng, &t);
    assert!(matches!(e, Event::BaseHit { bases: 3, .. }));
    assert_eq!(layout(&e), vec![(202, 4), (203, 3)]);
}

#[test]
fn plugins_in_their_order() {
    let w = world();
    let mut g = game(&w, Weather::Sun);
    let (mut rng, _) = seeded(1);
    let t = table(0, NEVER);
    assert!(Plugin::InningState.tick(&g, &w, &mut rng, &t).is_none());
    assert!(Plugin::ExtraWeather.tick(&g, &w, &mut rng, &t).is_none());
    assert!(Plugin::BatterState.tick(&g, &w, &mut rng, &t).is_none());
    assert!(Plugin::Weather.tick(&g, &w, &mut rng, &t).is_none());
    assert!(Plugin::Modifier.tick(&g, &w, &mut rng, &t).is_none());
    assert!(Plugin::Stealing.tick(&g, &w, &mut rng, &t).is_none());
    assert!(matches!(Plugin::Base.tick(&g, &w, &mut rng, &t), Some(Event::Ball)));
    g.outs = 3;
    assert!(matches!(Plugin::InningState.tick(&g, &w, &mut rng, &t), Some(Event::InningSwitch { .. })));
}

#[test]
fn the_first_phase_that_speaks_gives_the_event() {
    let w = world();
    let mut g = game(&w, Weather::Sun);
    g.outs = 3;
    g.scoreboard.away_team.batter = None;
    let (mut rng, mut same) = seeded(1);
    let e = next_event(&g, &w, &mut rng, &table(0, NEVER));
    assert!(matches!(e, Event::InningSwitch { inning: 1, top: false }));
    assert_eq!(rng.next(), same.next());
    g.outs = 0;
    let e = next_event(&g, &w, &mut rng, &table(0, NEVER));
    assert!(matches!(e, Event::BatterUp { batter: 201, reverberating: false }));
}

#[test]
fn a_tick_under_the_sun_takes_the_steal_draw_and_the_pitch_draws() {
    let w = world();
    let g = game(&w, Weather::Sun);
    let (mut rng, mut same) = seeded(1);
    let e = next_event(&g, &w, &mut rng, &table(0, NEVER));
    assert!(matches!(e, Event::Ball));
    for _ in 0..3 {
        same.next();
    }
    assert_eq!(rng.next(), same.next());
}

#[test]
fn the_simulator_gives_the_events_of_a_half_inning() {
    let mut w = world();
    let mut rng = Rng::new(69, 420);
    let mut g = Game::new(100, 200, 0, Some(Weather::Sun), &w, &mut rng);
    let mut looking = table(0, ALWAYS);
    looking.swing_strike = NEVER;
    let mut tags: Vec<String> = Vec::new();
    for _ in 0..13 {
        let e = {
            let mut sim = Sim::new(&mut w, &mut rng);
            sim.next(&g, &looking)
        };
        tags.push(e.repr());
        e.apply(&mut g, &mut w);
    }
    let expected = [
        "batterUp", "strike", "strike", "strikeOut", "batterUp", "strike", "strike", "strikeOut",
        "batterUp", "strike", "strike", "strikeOut", "inningSwitch",
    ];
    assert_eq!(tags, expected);
    assert!(!g.scoreboard.top);
    assert_eq!(g.inning, 1);
    assert_eq!(g.outs, 0);
    assert_eq!(g.scoreboard.away_team.batter_index, 3);
    assert_eq!(g.events.len(), 13);
}

#[test]
fn two_simulators_with_the_same_seed_write_the_same_tags() {
    let run = || {
        let mut w = world();
        let mut rng = Rng::new(2200200200200200200, 1234567890987654321);
        let mut g = Game::new(100, 200, 0, Some(Weather::Sun), &w, &mut rng);
        let mut t = table(0, Threshold { lt: DRAW_SPAN / 2, le: DRAW_SPAN / 2 + 1 });
        let mut tags: Vec<String> = Vec::new();
        for _ in 0..400 {
            if !t.fits(9, g.runners.runners.len()) {
                t = table(g.runners.runners.len(), Threshold { lt: DRAW_SPAN / 2, le: DRAW_SPAN / 2 + 1 });
            }
            let e = next_event(&g, &w, &mut rng, &t);
            tags.push(e.repr());
            let over = matches!(e, Event::GameOver);
            e.apply(&mut g, &mut w);
            assert!(g.balls >= 0 && g.balls <= 3);
            assert!(g.strikes >= 0 && g.strikes <= 2);
            assert!(g.outs >= 0 && g.outs <= 3);
            assert!(g.inning >= 1);
            let mut bases: Vec<u8> = g.runners.runners.iter().map(|r| r.base).collect();
            bases.sort();
            bases.dedup();
            assert_eq!(bases.len(), g.runners.runners.len());
            assert!(bases.iter().all(|b| *b <= 2));
            if over {
                break;
            }
        }
        (tags, rng.next())
    };
    let (a, ra) = run();
    let (b, rb) = run();
    assert_eq!(a, b);
    assert_eq!(ra, rb);
    assert!(a.len() > 100);
    assert!(a.iter().any(|t| t == "inningSwitch"));
}
