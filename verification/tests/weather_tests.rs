use sandbox::entities::{Player, PlayerAttr, Team, World, ATTR_PER_DRAW};
use sandbox::events::Event;
use sandbox::formulas::{
    BIRDS_CHANCE, BLOODDRAIN_CHANCE, EVEN_CHANCE, FEEDBACK_BATTER_CHANCE, FEEDBACK_CHANCE,
    FLICKERING_FEEDBACK_CHANCE, INCINERATION_CHANCE, NIGHT_SHIFT_CHANCE, PEANUT_CHANCE,
    PECKED_FREE_CHANCE, POLARITY_CHANCE, REVERB_ALL_CUT, REVERB_CHANCE, REVERB_LINEUP_CUT,
    REVERB_PAIRS_CUT, UNSTABLE_INCINERATION_CHANCE,
};
use sandbox::game::{Game, Weather};
use sandbox::mods::{Mod, ModLifetime, Mods};
use sandbox::rng::{pick_index, Rng, DRAW_SPAN};
use sandbox::weather::{poll_for_mod, roll_random_boosts, weather, PickRule};

fn player(id: u128, team: u128) -> Player {
    let mut rng = Rng::new(id as u64, 1);
    let mut p = Player::new(&mut rng);
    p.id = id;
    p.team = Some(team);
    p
}

fn team(id: u128) -> Team {
    Team {
        id,
        name: format!("Team {}", id),
        emoji: String::from("*"),
        lineup: (1..=9).map(|k| id + k).collect(),
        rotation: (11..=15).map(|k| id + k).collect(),
        shadows: (21..=25).map(|k| id + k).collect(),
        wins: 0,
        losses: 0,
        postseason_wins: 0,
        postseason_losses: 0,
        partying: false,
        fate: 0,
        mods: Mods::new(),
    }
}

fn world() -> World {
    let mut world = World::new(11);
    for t in [100u128, 200] {
        let tm = team(t);
        for id in tm.lineup.iter().chain(tm.rotation.iter()).chain(tm.shadows.iter()) {
            world.insert_player(player(*id, t));
        }
        world.insert_team(tm);
    }
    world
}

fn game(world: &World, weather: Weather) -> Game {
    let mut rng = Rng::new(1, 1);
    let mut g = Game::new(100, 200, 0, Some(weather), world, &mut rng);
    g.assign_batter(201);
    g
}

/// A generator whose next draws are found by search: the first draw lies
/// below `cut`.
fn seeds_below(cut: u64, count: usize) -> Vec<u64> {
    let mut found = Vec::new();
    let mut seed = 0u64;
    while found.len() < count {
        let mut rng = Rng::new(seed, seed.wrapping_mul(31) + 7);
        for _ in 0..8 {
            rng.next();
        }
        if rng.next() < cut {
            found.push(seed);
        }
        seed += 1;
    }
    found
}

fn seeded(seed: u64) -> (Rng, Rng) {
    let mut a = Rng::new(seed, seed.wrapping_mul(31) + 7);
    let mut b = Rng::new(seed, seed.wrapping_mul(31) + 7);
    for _ in 0..8 {
        a.next();
        b.next();
    }
    (a, b)
}

#[test]
fn picks_among_the_players_off_base() {
    let w = world();
    let mut g = game(&w, Weather::Eclipse);
    assert_eq!(g.pick_player_weighted(&w, 0, PickRule::OffBase, true), 101);
    assert_eq!(g.pick_player_weighted(&w, DRAW_SPAN - 1, PickRule::OffBase, true), 211);
    assert_eq!(g.pick_player_weighted(&w, DRAW_SPAN - 1, PickRule::OffBase, false), 215);
    g.runners.add(0, 101);
    assert_eq!(g.pick_player_weighted(&w, 0, PickRule::OffBase, true), 102);
    let n = 9 + 9 + 2 - 1;
    let m = DRAW_SPAN / 2;
    let all: Vec<u128> = (102..=109).chain(201..=209).chain([111, 211]).collect();
    assert_eq!(g.pick_player_weighted(&w, m, PickRule::OffBase, true), all[pick_index(m, n)]);
}

#[test]
fn picks_among_the_players_of_the_other_team() {
    let w = world();
    let g = game(&w, Weather::Eclipse);
    assert_eq!(g.pick_player_weighted(&w, 0, PickRule::OtherTeam(101), false), 201);
    assert_eq!(g.pick_player_weighted(&w, DRAW_SPAN - 1, PickRule::OtherTeam(101), false), 215);
    assert_eq!(g.pick_player_weighted(&w, 0, PickRule::OtherTeam(205), false), 101);
    assert_eq!(g.pick_player_weighted(&w, DRAW_SPAN - 1, PickRule::OtherTeam(205), false), 115);
}

#[test]
fn picks_among_the_batter_and_the_runners() {
    let w = world();
    let mut g = game(&w, Weather::Blooddrain);
    g.runners.add(1, 204);
    assert_eq!(g.pick_player_weighted(&w, 0, PickRule::AtBatOrOnBase, true), 201);
    assert_eq!(g.pick_player_weighted(&w, DRAW_SPAN - 1, PickRule::AtBatOrOnBase, true), 204);
}

#[test]
fn poll_for_mod_goes_through_both_teams() {
    let mut w = world();
    for id in [212u128, 103, 111, 205, 121] {
        w.player_mut(id).mods.add(Mod::Shelled, ModLifetime::Permanent);
    }
    let g = game(&w, Weather::Birds);
    assert_eq!(poll_for_mod(&g, &w, Mod::Shelled), vec![103, 111, 205, 212]);
    assert!(poll_for_mod(&g, &w, Mod::Gravity).is_empty());
}

#[test]
fn random_boosts_scale_26_draws() {
    let (mut rng, mut same) = seeded(9);
    let boosts = roll_random_boosts(&mut rng, 4);
    assert_eq!(boosts.len(), 26);
    for b in boosts {
        assert_eq!(b, same.next() as i64 * 4);
    }
    assert_eq!(rng.next(), same.next());
    let (mut rng, mut same) = seeded(9);
    let losses = roll_random_boosts(&mut rng, -1);
    for l in losses {
        assert_eq!(l, -(same.next() as i64));
    }
}

#[test]
fn quiet_weathers_take_no_draw() {
    let w = world();
    for quiet in [
        Weather::Sun,
        Weather::Salmon,
        Weather::SunPointOne,
        Weather::SumSun,
        Weather::Coffee,
        Weather::Coffee2,
        Weather::Coffee3,
        Weather::Flooding,
        Weather::Sun2,
        Weather::BlackHole,
    ] {
        let g = game(&w, quiet);
        let (mut rng, mut same) = seeded(2);
        assert!(weather(&g, &w, &mut rng).is_none());
        assert_eq!(rng.next(), same.next());
    }
}

#[test]
fn the_second_sun_and_the_black_hole_look_at_the_score() {
    let w = world();
    let (mut rng, _) = seeded(2);
    let mut g = game(&w, Weather::Sun2);
    g.scoreboard.home_team.score = 99;
    g.scoreboard.away_team.score = 100;
    assert!(matches!(weather(&g, &w, &mut rng), Some(Event::Sun2 { home_team: false })));
    g.scoreboard.home_team.score = 100;
    assert!(matches!(weather(&g, &w, &mut rng), Some(Event::Sun2 { home_team: true })));
    g.weather = Weather::BlackHole;
    assert!(matches!(weather(&g, &w, &mut rng), Some(Event::BlackHole { home_team: true })));
    g.scoreboard.home_team.score = 0;
    g.scoreboard.away_team.score = 230;
    assert!(matches!(weather(&g, &w, &mut rng), Some(Event::BlackHole { home_team: false })));
}

#[test]
fn polarity_switches_on_a_low_draw() {
    let w = world();
    for kind in [Weather::PolarityPlus, Weather::PolarityMinus] {
        let g = game(&w, kind);
        let mut switches = 0;
        for seed in 0..2000 {
            let (mut rng, mut same) = seeded(seed);
            let e = weather(&g, &w, &mut rng);
            if same.next() < POLARITY_CHANCE {
                assert!(matches!(e, Some(Event::PolaritySwitch)));
                switches += 1;
            } else {
                assert!(e.is_none());
            }
            assert_eq!(rng.next(), same.next());
        }
        assert!(switches > 30 && switches < 130);
    }
}

#[test]
fn an_eclipse_mostly_takes_two_draws_and_burns_nobody() {
    let w = world();
    let g = game(&w, Weather::Eclipse);
    for seed in 0..300 {
        let (mut rng, mut same) = seeded(seed);
        let e = weather(&g, &w, &mut rng);
        if same.next() >= INCINERATION_CHANCE {
            assert!(e.is_none());
            same.next();
            assert_eq!(rng.next(), same.next());
        }
    }
}

#[test]
fn an_eclipse_burns_on_a_low_draw() {
    let w = world();
    let g = game(&w, Weather::Eclipse);
    for seed in seeds_below(INCINERATION_CHANCE, 3) {
        let (mut rng, mut same) = seeded(seed);
        let e = weather(&g, &w, &mut rng);
        same.next();
        let all: Vec<u128> = (101..=109).chain(201..=209).chain([111, 211]).collect();
        let expected_target = all[pick_index(same.next(), 20)];
        match e {
            Some(Event::Incineration { target, replacement }) => {
                assert_eq!(target, expected_target);
                assert_eq!(
                    replacement.attr(PlayerAttr::Thwackability),
                    same.next() as i64 * ATTR_PER_DRAW
                );
                for _ in 0..25 {
                    same.next();
                }
                assert_eq!(replacement.team, None);
                assert_eq!(uuid::Uuid::from_u128(replacement.id).get_version_num(), 4);
            }
            _ => panic!("no incineration"),
        }
        assert_eq!(rng.next(), same.next());
    }
}

#[test]
fn a_fireproof_player_does_not_burn() {
    let mut w = world();
    for id in w.player_ids() {
        w.player_mut(id).mods.add(Mod::Fireproof, ModLifetime::Permanent);
    }
    let g = game(&w, Weather::Eclipse);
    for seed in seeds_below(INCINERATION_CHANCE, 2) {
        let (mut rng, mut same) = seeded(seed);
        let e = weather(&g, &w, &mut rng);
        assert!(matches!(e, Some(Event::Fireproof { .. })));
        same.next();
        same.next();
        assert_eq!(rng.next(), same.next());
    }
}

#[test]
fn the_instability_jumps_to_the_other_team() {
    let mut w = world();
    for id in w.player_ids() {
        w.player_mut(id).mods.add(Mod::Unstable, ModLifetime::Week);
    }
    w.player_mut(201).mods.add(Mod::Stable, ModLifetime::Permanent);
    w.player_mut(101).mods.add(Mod::Stable, ModLifetime::Permanent);
    let g = game(&w, Weather::Eclipse);
    let mut seen = 0;
    for seed in seeds_below(UNSTABLE_INCINERATION_CHANCE, 12) {
        let (mut rng, mut same) = seeded(seed);
        let first = same.next();
        let e = weather(&g, &w, &mut rng);
        assert!(first < UNSTABLE_INCINERATION_CHANCE);
        let all: Vec<u128> = (101..=109).chain(201..=209).chain([111, 211]).collect();
        let expected_target = all[pick_index(same.next(), 20)];
        let other: Vec<u128> = if expected_target < 200 {
            (201..=209).chain(211..=215).collect()
        } else {
            (101..=109).chain(111..=115).collect()
        };
        let expected_chain = other[pick_index(same.next(), 14)];
        match e {
            Some(Event::IncinerationWithChain { target, chain, .. }) => {
                assert_eq!(target, expected_target);
                if expected_chain == 201 || expected_chain == 101 {
                    assert_eq!(chain, None);
                } else {
                    assert_eq!(chain, Some(expected_chain));
                }
                seen += 1;
            }
            _ => panic!("no chain"),
        }
        for _ in 0..26 {
            same.next();
        }
        assert_eq!(rng.next(), same.next());
    }
    assert_eq!(seen, 12);
}

#[test]
fn peanuts() {
    let w = world();
    let g = game(&w, Weather::Peanuts);
    let (mut rng, mut same) = seeded(0);
    let quiet = weather(&g, &w, &mut rng);
    if same.next() >= PEANUT_CHANCE {
        assert!(quiet.is_none());
        assert_eq!(rng.next(), same.next());
    }
    for seed in seeds_below(PEANUT_CHANCE, 3) {
        let (mut rng, mut same) = seeded(seed);
        let e = weather(&g, &w, &mut rng);
        same.next();
        let all: Vec<u128> = (101..=109).chain(201..=209).chain([111, 211]).collect();
        let expected = all[pick_index(same.next(), 20)];
        assert!(matches!(e, Some(Event::Peanut { target, yummy: false }) if target == expected));
        assert_eq!(rng.next(), same.next());
    }
}

#[test]
fn birds() {
    let mut w = world();
    let g = game(&w, Weather::Birds);
    for seed in seeds_below(BIRDS_CHANCE, 3) {
        let (mut rng, mut same) = seeded(seed);
        assert!(matches!(weather(&g, &w, &mut rng), Some(Event::Birds)));
        same.next();
        assert_eq!(rng.next(), same.next());
    }
    for id in [103u128, 205, 212] {
        w.player_mut(id).mods.add(Mod::Shelled, ModLifetime::Permanent);
    }
    let mut pecked = 0;
    for seed in 0..40000 {
        let (mut rng, mut same) = seeded(seed);
        let e = weather(&g, &w, &mut rng);
        if same.next() < BIRDS_CHANCE {
            assert!(matches!(e, Some(Event::Birds)));
            continue;
        }
        let mut expected = None;
        for id in [103u128, 205, 212] {
            if same.next() < PECKED_FREE_CHANCE {
                expected = Some(id);
                break;
            }
        }
        match (e, expected) {
            (Some(Event::PeckedFree { player }), Some(id)) => {
                assert_eq!(player, id);
                pecked += 1;
            }
            (None, None) => {}
            _ => panic!("the birds and their draws disagree"),
        }
        assert_eq!(rng.next(), same.next());
    }
    assert!(pecked > 3);
}

#[test]
fn feedback_on_a_flickering_batter() {
    let mut w = world();
    w.player_mut(201).mods.add(Mod::Flickering, ModLifetime::Week);
    let g = game(&w, Weather::Feedback);
    let mut struck = 0;
    for seed in 0..3000 {
        let (mut rng, mut same) = seeded(seed);
        let e = weather(&g, &w, &mut rng);
        let is_batter = same.next() < FEEDBACK_BATTER_CHANCE;
        let roll = same.next();
        let strikes = (is_batter && roll < FLICKERING_FEEDBACK_CHANCE) || roll < FEEDBACK_CHANCE;
        if !strikes {
            assert!(e.is_none());
        } else if is_batter {
            let fielder = 101 + pick_index(same.next(), 9) as u128;
            assert!(matches!(
                e,
                Some(Event::Feedback { target1: 201, target2 }) if target2 == fielder
            ));
            struck += 1;
        } else {
            let other = 211 + pick_index(same.next(), 5) as u128;
            assert!(matches!(
                e,
                Some(Event::Feedback { target1: 111, target2 }) if target2 == other
            ));
        }
        assert_eq!(rng.next(), same.next());
    }
    assert!(struck > 15);
}

#[test]
fn a_soundproof_player_resists_feedback() {
    let mut w = world();
    w.player_mut(201).mods.add(Mod::Flickering, ModLifetime::Week);
    w.player_mut(201).mods.add(Mod::Soundproof, ModLifetime::Permanent);
    let g = game(&w, Weather::Feedback);
    let mut seen = 0;
    for seed in 0..3000 {
        let (mut rng, mut same) = seeded(seed);
        let e = weather(&g, &w, &mut rng);
        let is_batter = same.next() < FEEDBACK_BATTER_CHANCE;
        let roll = same.next();
        if is_batter && roll < FLICKERING_FEEDBACK_CHANCE {
            let fielder = 101 + pick_index(same.next(), 9) as u128;
            match e {
                Some(Event::Soundproof { resists, tangled, reductions }) => {
                    assert_eq!((resists, tangled), (201, fielder));
                    assert_eq!(reductions.len(), 26);
                    for r in reductions {
                        assert_eq!(r, -(same.next() as i64));
                    }
                    seen += 1;
                }
                _ => panic!("no soundproof"),
            }
            assert_eq!(rng.next(), same.next());
        }
    }
    assert!(seen > 15);
}

#[test]
fn reverb_weather() {
    let mut w = world();
    w.player_mut(103).mods.add(Mod::Gravity, ModLifetime::Permanent);
    w.player_mut(212).mods.add(Mod::Gravity, ModLifetime::Permanent);
    let g = game(&w, Weather::Reverb);
    let (mut rng, mut same) = seeded(1);
    let quiet = weather(&g, &w, &mut rng);
    if same.next() >= REVERB_CHANCE {
        assert!(quiet.is_none());
        assert_eq!(rng.next(), same.next());
    }
    let mut seed = 0u64;
    let mut kinds = [0usize; 4];
    while kinds.iter().sum::<usize>() < 6 {
        seed += 1;
        let (mut rng, mut same) = seeded(seed);
        if same.next() >= REVERB_CHANCE {
            continue;
        }
        let e = weather(&g, &w, &mut rng);
        let kind_roll = same.next();
        let kind = if kind_roll < REVERB_ALL_CUT {
            0u8
        } else if kind_roll < REVERB_PAIRS_CUT {
            1
        } else if kind_roll < REVERB_LINEUP_CUT {
            2
        } else {
            3
        };
        let home = same.next() < EVEN_CHANCE;
        let (team_id, gravity) = if home { (100u128, vec![2usize]) } else { (200, vec![10]) };
        let expected = w.team(team_id).roll_reverb_changes(&mut same, kind, &gravity);
        match e {
            Some(Event::Reverb { reverb_type, team, changes }) => {
                assert_eq!((reverb_type, team), (kind, team_id));
                assert_eq!(changes, expected);
                kinds[kind as usize] += 1;
            }
            _ => panic!("no reverb"),
        }
        assert_eq!(rng.next(), same.next());
    }
}

#[test]
fn blooddrain_weather() {
    let w = world();
    let mut g = game(&w, Weather::Blooddrain);
    g.runners.add(0, 204);
    let mut seen = 0;
    for seed in seeds_below(BLOODDRAIN_CHANCE, 8) {
        let (mut rng, mut same) = seeded(seed);
        let e = weather(&g, &w, &mut rng);
        same.next();
        let fielding_drains = same.next() < EVEN_CHANCE;
        let at_bat = same.next() < EVEN_CHANCE;
        let (a, b) = if at_bat {
            (111u128, 201u128)
        } else {
            let fielder = 101 + pick_index(same.next(), 9) as u128;
            let hitter = [201u128, 204][pick_index(same.next(), 2)];
            (fielder, hitter)
        };
        let group = pick_index(same.next(), 4) as u8;
        match e {
            Some(Event::Blooddrain { drainer, target, stat, siphon, siphon_effect }) => {
                if fielding_drains {
                    assert_eq!((drainer, target), (a, b));
                } else {
                    assert_eq!((drainer, target), (b, a));
                }
                assert_eq!(stat, group);
                assert!(!siphon);
                assert_eq!(siphon_effect, -1);
                seen += 1;
            }
            _ => panic!("no blooddrain"),
        }
        assert_eq!(rng.next(), same.next());
    }
    assert_eq!(seen, 8);
}

#[test]
fn night_shift_weather() {
    let w = world();
    let g = game(&w, Weather::Night);
    for seed in seeds_below(NIGHT_SHIFT_CHANCE, 6) {
        let (mut rng, mut same) = seeded(seed);
        let e = weather(&g, &w, &mut rng);
        same.next();
        let for_batter = same.next() < EVEN_CHANCE;
        let idx = pick_index(same.next(), 5);
        let shadow = if for_batter { 221 } else { 121 } + idx as u128;
        match e {
            Some(Event::NightShift { batter, replacement, replacement_idx, boosts }) => {
                assert_eq!((batter, replacement, replacement_idx), (for_batter, shadow, idx));
                for b in boosts {
                    assert_eq!(b, same.next() as i64 * 4);
                }
            }
            _ => panic!("no night shift"),
        }
        assert_eq!(rng.next(), same.next());
    }
}
