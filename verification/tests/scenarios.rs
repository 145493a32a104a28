use sandbox::entities::{Player, Team, World};
use sandbox::events::Event;
use sandbox::formulas::{
    FielderThresholds, PitchThresholds, Threshold, SALMON_CHANCE, SALMON_RUNS_LOST_CHANCE,
    STEAL_ATTEMPT_CHANCE,
};
use sandbox::game::{Game, Weather};
use sandbox::mods::{Mod, ModLifetime, Mods};
use sandbox::rng::{pick_index, Rng, DRAW_SPAN};
use sandbox::sim::{next_event, Sim};

const NEVER: Threshold = Threshold { lt: 0, le: 0 };
const ALWAYS: Threshold = Threshold { lt: DRAW_SPAN, le: DRAW_SPAN };

fn player(id: u128, team: u128) -> Player {
    let mut rng = Rng::new(id as u64, 1);
    let mut p = Player::new(&mut rng);
    p.id = id;
    p.team = Some(team);
    p
}

fn team(id: u128) -> Team {
    Team {
        id,
        name: format!("Team {}", id),
        emoji: String::from("*"),
        lineup: (1..=9).map(|k| id + k).collect(),
        rotation: (11..=15).map(|k| id + k).collect(),
        shadows: (21..=25).map(|k| id + k).collect(),
        wins: 0,
        losses: 0,
        postseason_wins: 0,
        postseason_losses: 0,
        partying: false,
        fate: 0,
        mods: Mods::new(),
    }
}

fn world() -> World {
    let mut world = World::new(11);
    for t in [100u128, 200] {
        let tm = team(t);
        for id in tm.lineup.iter().chain(tm.rotation.iter()).chain(tm.shadows.iter()) {
            world.insert_player(player(*id, t));
        }
        world.insert_team(tm);
    }
    world
}

fn table(runners: usize, each: Threshold) -> PitchThresholds {
    PitchThresholds {
        strike: each,
        swing_strike: each,
        swing_ball: each,
        contact_strike: each,
        contact_ball: each,
        foul: each,
        home_run: each,
        sacrifice: each,
        fielders: (0..9)
            .map(|_| FielderThresholds {
                out: each,
                fly: each,
                double_play: each,
                triple: each,
                double: each,
                groundout_advance: vec![each; runners],
                hit_advance: vec![each; runners],
            })
            .collect(),
        flyout_advance: vec![each; runners],
    }
}

fn ball() -> PitchThresholds {
    table(0, NEVER)
}

fn strike_looking() -> PitchThresholds {
    let mut t = table(0, ALWAYS);
    t.swing_strike = NEVER;
    t
}

#[test]
fn first_plate_appearance_of_the_canonical_seed() {
    let mut rng = Rng::new(69, 420);
    let mut w = World::new(11);
    let home = w.gen_team(&mut rng, String::from("Home"), String::from("H"));
    let away = w.gen_team(&mut rng, String::from("Away"), String::from("A"));
    assert_eq!(w.team(home).lineup.len(), 9);
    assert_eq!(w.team(away).lineup.len(), 9);
    let mut g = Game::new(home, away, 0, Some(Weather::Eclipse), &w, &mut rng);
    let first = w.team(away).lineup[0];
    let pitches = [ball(), ball(), strike_looking(), ball(), strike_looking(), strike_looking()];
    let mut tags: Vec<String> = Vec::new();
    for t in pitches.iter() {
        let e = next_event(&g, &w, &mut rng, t);
        tags.push(e.repr());
        e.apply(&mut g, &mut w);
    }
    assert_eq!(tags, ["batterUp", "ball", "strike", "ball", "strike", "strikeOut"]);
    assert_eq!(g.outs, 1);
    assert_eq!((g.balls, g.strikes), (0, 0));
    assert_eq!(g.batter(), None);
    assert_eq!(g.scoreboard.away_team.batter_index, 1);
    assert_eq!(w.player(first).feed.len(), 1);
    assert_eq!(w.player(first).feed.last(), "strikeOut");
}

#[test]
fn the_canonical_seed_is_reproducible() {
    let run = || {
        let mut rng = Rng::new(69, 420);
        let mut w = World::new(11);
        let home = w.gen_team(&mut rng, String::from("Home"), String::from("H"));
        let away = w.gen_team(&mut rng, String::from("Away"), String::from("A"));
        let mut g = Game::new(home, away, 0, Some(Weather::Eclipse), &w, &mut rng);
        let half = Threshold { lt: DRAW_SPAN / 2, le: DRAW_SPAN / 2 + 1 };
        let mut tags: Vec<String> = Vec::new();
        for _ in 0..300 {
            let t = table(g.runners.runners.len(), half);
            let e = next_event(&g, &w, &mut rng, &t);
            tags.push(e.repr());
            let over = matches!(e, Event::GameOver);
            e.apply(&mut g, &mut w);
            if over {
                break;
            }
        }
        w.clear_game();
        tags
    };
    assert_eq!(run(), run());
}

#[test]
fn a_double_play_with_one_out_ends_the_half_inning() {
    let mut w = world();
    let mut found = false;
    for seed in 0..50u64 {
        let a = 0x9E37_79B9_7F4A_7C15u64.wrapping_mul(seed + 1);
        let mut rng = Rng::new(a, 0xD1B5_4A32_D192_ED03);
        let mut same = Rng::new(a, 0xD1B5_4A32_D192_ED03);
        let mut g = Game::new(100, 200, 0, Some(Weather::Sun), &w, &mut rng);
        g.assign_batter(203);
        g.runners.add(0, 201);
        g.runners.add(1, 202);
        g.outs = 1;
        let mut t = table(2, ALWAYS);
        t.foul = NEVER;
        for f in t.fielders.iter_mut() {
            f.out = NEVER;
            f.fly = NEVER;
        }
        same.next();
        if same.next() < STEAL_ATTEMPT_CHANCE {
            continue;
        }
        for _ in 0..10 {
            same.next();
        }
        if pick_index(same.next(), 2) != 0 {
            continue;
        }
        found = true;
        let e = next_event(&g, &w, &mut rng, &t);
        match &e {
            Event::DoublePlay { runners_after } => {
                let left: Vec<(u128, u8)> =
                    runners_after.runners.iter().map(|r| (r.id, r.base)).collect();
                assert_eq!(left, vec![(202, 2)]);
            }
            _ => panic!("no double play"),
        }
        e.apply(&mut g, &mut w);
        assert_eq!(g.outs, 3);
        let next = next_event(&g, &w, &mut rng, &t);
        assert!(matches!(next, Event::InningSwitch { inning: 1, top: false }));
        next.apply(&mut g, &mut w);
        assert_eq!(g.outs, 0);
        assert!(g.runners.empty());
        assert!(!g.scoreboard.top);
        break;
    }
    assert!(found);
}

fn salmon_seed() -> u64 {
    let mut seed = 0u64;
    loop {
        let mut rng = Rng::new(seed, 11);
        if rng.next() < SALMON_CHANCE && rng.next() < SALMON_RUNS_LOST_CHANCE {
            return seed;
        }
        seed += 1;
    }
}

#[test]
fn salmon_after_a_two_run_top_half() {
    let mut w = world();
    let mut setup = Rng::new(1, 1);
    let mut g = Game::new(100, 200, 0, Some(Weather::Salmon), &w, &mut setup);
    g.scoreboard.away_team.score = 20;
    g.outs = 3;
    let mut rng = Rng::new(salmon_seed(), 11);
    let t = table(0, NEVER);
    let switch = next_event(&g, &w, &mut rng, &t);
    assert!(matches!(switch, Event::InningSwitch { inning: 1, top: false }));
    switch.apply(&mut g, &mut w);
    let e = next_event(&g, &w, &mut rng, &t);
    assert!(matches!(e, Event::Salmon { home_runs_lost: false, away_runs_lost: true }));
    e.apply(&mut g, &mut w);
    assert_eq!(g.scoreboard.away_team.score, 0);
    assert_eq!(g.inning, 1);
    assert!(g.scoreboard.top);
    assert_eq!(g.salmon_resets_inning, 1);
    let after = next_event(&g, &w, &mut rng, &t);
    assert!(matches!(after, Event::BatterUp { .. }));
}

#[test]
fn salmon_after_a_two_run_bottom_half() {
    let mut w = world();
    let mut setup = Rng::new(1, 1);
    let mut g = Game::new(100, 200, 0, Some(Weather::Salmon), &w, &mut setup);
    g.scoreboard.top = false;
    g.inning = 4;
    g.linescore_away = vec![0, 0, 0, 0, 0];
    g.linescore_home = vec![0, 0, 0, 0];
    g.scoreboard.home_team.score = 20;
    g.outs = 3;
    let mut rng = Rng::new(salmon_seed(), 11);
    let t = table(0, NEVER);
    let switch = next_event(&g, &w, &mut rng, &t);
    assert!(matches!(switch, Event::InningSwitch { inning: 5, top: true }));
    switch.apply(&mut g, &mut w);
    assert_eq!(g.linescore_home, vec![20, 0, 0, 0, 20]);
    let e = next_event(&g, &w, &mut rng, &t);
    assert!(matches!(e, Event::Salmon { home_runs_lost: true, away_runs_lost: false }));
    e.apply(&mut g, &mut w);
    assert_eq!(g.scoreboard.home_team.score, 0);
    assert_eq!(g.inning, 4);
    assert!(g.scoreboard.top);
}

#[test]
fn the_second_sun_with_ten_runs_at_home() {
    let mut w = world();
    let mut rng = Rng::new(5, 5);
    let mut g = Game::new(100, 200, 0, Some(Weather::Sun2), &w, &mut rng);
    g.assign_batter(201);
    g.scoreboard.home_team.score = 100;
    let e = next_event(&g, &w, &mut rng, &table(0, NEVER));
    assert!(matches!(e, Event::Sun2 { home_team: true }));
    e.apply(&mut g, &mut w);
    assert_eq!(g.scoreboard.home_team.score, 0);
    let next = next_event(&g, &w, &mut rng, &table(0, NEVER));
    assert!(matches!(next, Event::Ball));
}

#[test]
fn with_a_fourth_strike_the_strikeout_comes_at_three_strikes() {
    let mut w = world();
    w.player_mut(201).mods.add(Mod::FourthStrike, ModLifetime::Permanent);
    let mut rng = Rng::new(5, 5);
    let mut g = Game::new(100, 200, 0, Some(Weather::Sun), &w, &mut rng);
    let mut tags: Vec<String> = Vec::new();
    for _ in 0..5 {
        let e = {
            let mut sim = Sim::new(&mut w, &mut rng);
            sim.next(&g, &strike_looking())
        };
        tags.push(e.repr());
        e.apply(&mut g, &mut w);
    }
    assert_eq!(tags, ["batterUp", "strike", "strike", "strike", "strikeOut"]);
}

#[test]
fn with_a_walk_in_the_park_the_walk_comes_at_two_balls() {
    let mut w = world();
    w.team_mut(200).mods.add(Mod::WalkInThePark, ModLifetime::Season);
    let mut rng = Rng::new(5, 5);
    let mut g = Game::new(100, 200, 0, Some(Weather::Sun), &w, &mut rng);
    let mut tags: Vec<String> = Vec::new();
    for _ in 0..4 {
        let e = next_event(&g, &w, &mut rng, &ball());
        tags.push(e.repr());
        e.apply(&mut g, &mut w);
    }
    assert_eq!(tags, ["batterUp", "ball", "ball", "walk"]);
    let on: Vec<(u128, u8)> = g.runners.runners.iter().map(|r| (r.id, r.base)).collect();
    assert_eq!(on, vec![(201, 0)]);
}

#[test]
fn without_badges_the_walk_comes_at_three_balls() {
    let mut w = world();
    let mut rng = Rng::new(5, 5);
    let mut g = Game::new(100, 200, 0, Some(Weather::Sun), &w, &mut rng);
    let mut tags: Vec<String> = Vec::new();
    for _ in 0..5 {
        let e = next_event(&g, &w, &mut rng, &ball());
        tags.push(e.repr());
        e.apply(&mut g, &mut w);
    }
    assert_eq!(tags, ["batterUp", "ball", "ball", "ball", "walk"]);
}
