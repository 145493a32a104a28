use sandbox::bases::Baserunners;
use sandbox::entities::{Player, PlayerAttr, Team, World};
use sandbox::events::{Event, DRAIN_BOOST, PEANUT_BOOST};
use sandbox::game::{Game, Weather};
use sandbox::mods::{Mod, ModLifetime, Mods};
use sandbox::rng::Rng;

fn player(id: u128, team: u128) -> Player {
    let mut rng = Rng::new(id as u64, 1);
    let mut p = Player::new(&mut rng);
    p.id = id;
    p.team = Some(team);
    p
}

fn team(id: u128) -> Team {
    Team {
        id,
        name: format!("Team {}", id),
        emoji: String::from("*"),
        lineup: (1..=9).map(|k| id + k).collect(),
        rotation: (11..=15).map(|k| id + k).collect(),
        shadows: (21..=25).map(|k| id + k).collect(),
        wins: 0,
        losses: 0,
        postseason_wins: 0,
        postseason_losses: 0,
        partying: false,
        fate: 0,
        mods: Mods::new(),
    }
}

fn world() -> World {
    let mut world = World::new(11);
    for t in [100u128, 200] {
        let tm = team(t);
        for id in tm.lineup.iter().chain(tm.rotation.iter()).chain(tm.shadows.iter()) {
            world.insert_player(player(*id, t));
        }
        world.insert_team(tm);
    }
    world
}

fn game(world: &World, weather: Weather) -> Game {
    let mut rng = Rng::new(1, 1);
    let mut g = Game::new(100, 200, 0, Some(weather), world, &mut rng);
    g.assign_batter(201);
    g
}

fn on(bases: &[(u128, u8)]) -> Baserunners {
    let mut r = Baserunners::new(4);
    for (id, base) in bases {
        r.add(*base, *id);
    }
    r
}

fn layout(g: &Game) -> Vec<(u128, u8)> {
    g.runners.runners.iter().map(|r| (r.id, r.base)).collect()
}

#[test]
fn every_event_writes_its_tag() {
    let replacement = || player(999, 100);
    let events: Vec<(Event, &str)> = vec![
        (Event::BatterUp { batter: 1, reverberating: false }, "batterUp"),
        (Event::InningSwitch { inning: 1, top: false }, "inningSwitch"),
        (Event::GameOver, "gameOver"),
        (Event::Ball, "ball"),
        (Event::Strike, "strike"),
        (Event::Foul, "foul"),
        (Event::Strikeout, "strikeOut"),
        (Event::Walk, "walk"),
        (Event::HomeRun, "homeRun"),
        (Event::BaseHit { bases: 1, runners_after: on(&[]) }, "baseHit"),
        (Event::GroundOut { fielder: 1, runners_after: on(&[]) }, "groundOut"),
        (Event::Flyout { fielder: 1, runners_after: on(&[]) }, "flyout"),
        (Event::DoublePlay { runners_after: on(&[]) }, "doublePlay"),
        (Event::FieldersChoice { runners_after: on(&[]) }, "fieldersChoice"),
        (Event::BaseSteal { runner: 1, base_from: 0, base_to: 1 }, "baseSteal"),
        (Event::CaughtStealing { runner: 1, base_from: 0 }, "caughtStealing"),
        (Event::Incineration { target: 1, replacement: replacement() }, "incineration"),
        (Event::Peanut { target: 1, yummy: false }, "peanut"),
        (Event::Birds, "birds"),
        (Event::Feedback { target1: 1, target2: 2 }, "feedback"),
        (Event::Reverb { reverb_type: 0, team: 1, changes: vec![] }, "reverb"),
        (
            Event::Blooddrain { drainer: 1, target: 2, stat: 0, siphon: false, siphon_effect: -1 },
            "blooddrain",
        ),
        (Event::Sun2 { home_team: true }, "sun2"),
        (Event::BlackHole { home_team: true }, "blackHole"),
        (Event::Salmon { home_runs_lost: false, away_runs_lost: false }, "salmon"),
        (Event::PolaritySwitch, "polaritySwitch"),
        (
            Event::NightShift { batter: true, replacement: 1, replacement_idx: 0, boosts: vec![] },
            "nightShift",
        ),
        (Event::Fireproof { target: 1 }, "fireproof"),
        (Event::Soundproof { resists: 1, tangled: 2, reductions: vec![] }, "soundproof"),
        (Event::Shelled { batter: 1 }, "shelled"),
        (Event::HitByPitch { target: 1, hbp_type: 0 }, "hitByPitch"),
        (
            Event::IncinerationWithChain { target: 1, replacement: replacement(), chain: None },
            "incinerationWithChain",
        ),
        (Event::PeckedFree { player: 1 }, "peckedFree"),
        (Event::Zap { batter: true }, "zap"),
    ];
    assert_eq!(events.len(), 34);
    for (e, tag) in events {
        assert_eq!(e.repr(), tag);
    }
}

#[test]
fn applying_appends_the_tag_to_the_game_feed() {
    let mut w = world();
    let mut g = game(&w, Weather::Sun);
    Event::Ball.apply(&mut g, &mut w);
    Event::Birds.apply(&mut g, &mut w);
    Event::GameOver.apply(&mut g, &mut w);
    assert_eq!(g.events.len(), 3);
    assert_eq!(g.events.last(), "gameOver");
    assert!(g.events.has(String::from("ball"), -1));
    assert!(g.events.has(String::from("birds"), -1));
}

#[test]
fn batter_up() {
    let mut w = world();
    let mut g = game(&w, Weather::Sun);
    g.scoreboard.away_team.batter = None;
    g.scoreboard.away_team.batter_index = 4;
    Event::BatterUp { batter: 205, reverberating: false }.apply(&mut g, &mut w);
    assert_eq!(g.batter(), Some(205));
    assert_eq!(g.scoreboard.away_team.batter_index, 4);
    g.scoreboard.away_team.batter = None;
    Event::BatterUp { batter: 204, reverberating: true }.apply(&mut g, &mut w);
    assert_eq!(g.batter(), Some(204));
    assert_eq!(g.scoreboard.away_team.batter_index, 3);
}

#[test]
fn count_events() {
    let mut w = world();
    let mut g = game(&w, Weather::Sun);
    Event::Ball.apply(&mut g, &mut w);
    Event::Ball.apply(&mut g, &mut w);
    Event::Strike.apply(&mut g, &mut w);
    assert_eq!((g.balls, g.strikes), (2, 1));
    Event::Zap { batter: false }.apply(&mut g, &mut w);
    assert_eq!((g.balls, g.strikes), (1, 1));
    Event::Zap { batter: true }.apply(&mut g, &mut w);
    assert_eq!((g.balls, g.strikes), (1, 0));
}

#[test]
fn a_foul_is_a_strike_but_never_the_last() {
    let mut w = world();
    let mut g = game(&w, Weather::Sun);
    Event::Foul.apply(&mut g, &mut w);
    assert_eq!(g.strikes, 1);
    Event::Foul.apply(&mut g, &mut w);
    assert_eq!(g.strikes, 2);
    Event::Foul.apply(&mut g, &mut w);
    assert_eq!(g.strikes, 2);
}

#[test]
fn with_a_fourth_strike_a_foul_caps_at_three() {
    let mut w = world();
    w.player_mut(201).mods.add(Mod::FourthStrike, ModLifetime::Game);
    let mut g = game(&w, Weather::Sun);
    for _ in 0..5 {
        Event::Foul.apply(&mut g, &mut w);
    }
    assert_eq!(g.strikes, 3);
}

#[test]
fn strikeout() {
    let mut w = world();
    let mut g = game(&w, Weather::Sun);
    g.balls = 3;
    g.strikes = 2;
    Event::Strikeout.apply(&mut g, &mut w);
    assert_eq!((g.balls, g.strikes, g.outs), (0, 0, 1));
    assert_eq!(g.batter(), None);
    assert_eq!(g.scoreboard.away_team.batter_index, 1);
    assert_eq!(w.player(201).feed.len(), 1);
    assert_eq!(w.player(201).feed.last(), "strikeOut");
}

#[test]
fn walk_puts_the_batter_on_first_and_forces_the_chain() {
    let mut w = world();
    let mut g = game(&w, Weather::Sun);
    g.runners = on(&[(202, 2), (203, 0)]);
    g.balls = 3;
    Event::Walk.apply(&mut g, &mut w);
    assert_eq!(layout(&g), vec![(202, 2), (203, 1), (201, 0)]);
    assert_eq!(g.scoreboard.away_team.score, 0);
    assert_eq!((g.balls, g.strikes), (0, 0));
    assert_eq!(g.batter(), None);
    assert_eq!(w.player(201).feed.last(), "walk");
}

#[test]
fn a_walk_with_the_bases_loaded_forces_a_run_in() {
    let mut w = world();
    let mut g = game(&w, Weather::Sun);
    g.runners = on(&[(202, 2), (203, 1), (204, 0)]);
    Event::Walk.apply(&mut g, &mut w);
    assert_eq!(layout(&g), vec![(203, 2), (204, 1), (201, 0)]);
    assert_eq!(g.scoreboard.away_team.score, 10);
    assert_eq!(g.scoring_plays_inning, 1);
}

#[test]
fn home_run_with_three_runners_on() {
    let mut w = world();
    let mut g = game(&w, Weather::Sun);
    g.runners = on(&[(202, 2), (203, 1), (204, 0)]);
    g.scoreboard.away_team.batter_index = 4;
    Event::HomeRun.apply(&mut g, &mut w);
    assert_eq!(g.scoreboard.away_team.score, 40);
    assert_eq!(g.scoreboard.home_team.score, 0);
    assert_eq!(g.scoring_plays_inning, 1);
    assert!(g.runners.empty());
    assert_eq!(g.scoreboard.away_team.batter_index, 5);
    assert_eq!(g.batter(), None);
    assert_eq!(w.player(201).feed.last(), "homeRun");
}

#[test]
fn a_solo_home_run_is_one_scoring_play() {
    let mut w = world();
    let mut g = game(&w, Weather::Sun);
    Event::HomeRun.apply(&mut g, &mut w);
    assert_eq!(g.scoreboard.away_team.score, 10);
    assert_eq!(g.scoring_plays_inning, 1);
}

#[test]
fn home_run_with_a_fifth_base() {
    let mut w = world();
    w.team_mut(200).mods.add(Mod::FifthBase, ModLifetime::Season);
    let mut g = game(&w, Weather::Sun);
    assert_eq!(g.runners.base_number, 5);
    g.runners.add(3, 202);
    g.runners.add(0, 203);
    Event::HomeRun.apply(&mut g, &mut w);
    assert!(g.runners.empty());
    assert_eq!(g.scoreboard.away_team.score, 30);
}

#[test]
fn home_run_under_the_sum_sun_and_negative_polarity() {
    let mut w = world();
    let mut g = game(&w, Weather::SumSun);
    g.scoring_plays_inning = 2;
    g.runners = on(&[(202, 0)]);
    Event::HomeRun.apply(&mut g, &mut w);
    assert_eq!(g.scoreboard.away_team.score, 60);
    assert_eq!(g.scoring_plays_inning, 3);
    let mut n = game(&w, Weather::PolarityMinus);
    n.polarity = true;
    n.runners = on(&[(202, 0)]);
    Event::HomeRun.apply(&mut n, &mut w);
    assert_eq!(n.scoreboard.away_team.score, -20);
}

#[test]
fn the_home_team_scores_in_the_bottom() {
    let mut w = world();
    let mut g = game(&w, Weather::Sun);
    g.scoreboard.top = false;
    g.assign_batter(101);
    Event::HomeRun.apply(&mut g, &mut w);
    assert_eq!(g.scoreboard.home_team.score, 10);
    assert_eq!(g.scoreboard.away_team.score, 0);
    assert_eq!(g.scoreboard.home_team.batter_index, 1);
}

#[test]
fn base_hit_installs_the_runners_and_places_the_batter() {
    let mut w = world();
    let mut g = game(&w, Weather::Sun);
    g.runners = on(&[(202, 1), (203, 0)]);
    Event::BaseHit { bases: 2, runners_after: on(&[(202, 3), (203, 2)]) }.apply(&mut g, &mut w);
    assert_eq!(layout(&g), vec![(203, 2), (201, 1)]);
    assert_eq!(g.scoreboard.away_team.score, 10);
    assert_eq!(g.scoring_plays_inning, 1);
    assert_eq!(g.batter(), None);
    assert_eq!(w.player(201).feed.last(), "baseHit");
}

#[test]
fn ground_out_and_flyout() {
    let mut w = world();
    let mut g = game(&w, Weather::Sun);
    g.runners = on(&[(202, 2)]);
    Event::GroundOut { fielder: 101, runners_after: on(&[(202, 3)]) }.apply(&mut g, &mut w);
    assert_eq!(g.outs, 1);
    assert!(g.runners.empty());
    assert_eq!(g.scoreboard.away_team.score, 10);
    g.assign_batter(202);
    Event::Flyout { fielder: 101, runners_after: on(&[]) }.apply(&mut g, &mut w);
    assert_eq!(g.outs, 2);
    assert_eq!(g.scoreboard.away_team.batter_index, 2);
    assert_eq!(w.player(202).feed.last(), "flyout");
}

#[test]
fn no_run_counts_on_the_third_out() {
    let mut w = world();
    let mut g = game(&w, Weather::Sun);
    g.outs = 2;
    g.runners = on(&[(202, 2)]);
    Event::GroundOut { fielder: 101, runners_after: on(&[(202, 3)]) }.apply(&mut g, &mut w);
    assert_eq!(g.outs, 3);
    assert_eq!(g.scoreboard.away_team.score, 0);
    assert!(g.runners.empty());
    assert_eq!(g.scoring_plays_inning, 1);
}

#[test]
fn double_play_and_fielders_choice() {
    let mut w = world();
    let mut g = game(&w, Weather::Sun);
    Event::DoublePlay { runners_after: on(&[(203, 2)]) }.apply(&mut g, &mut w);
    assert_eq!(g.outs, 2);
    assert_eq!(layout(&g), vec![(203, 2)]);
    let mut h = game(&w, Weather::Sun);
    Event::FieldersChoice { runners_after: on(&[(203, 2)]) }.apply(&mut h, &mut w);
    assert_eq!(h.outs, 1);
    assert_eq!(layout(&h), vec![(203, 2), (201, 0)]);
}

#[test]
fn steal_and_caught_stealing() {
    let mut w = world();
    let mut g = game(&w, Weather::Sun);
    g.runners = on(&[(202, 1), (203, 0)]);
    Event::BaseSteal { runner: 202, base_from: 1, base_to: 2 }.apply(&mut g, &mut w);
    assert_eq!(layout(&g), vec![(202, 2), (203, 0)]);
    Event::BaseSteal { runner: 202, base_from: 2, base_to: 3 }.apply(&mut g, &mut w);
    assert_eq!(layout(&g), vec![(203, 0)]);
    assert_eq!(g.scoreboard.away_team.score, 10);
    Event::CaughtStealing { runner: 203, base_from: 0 }.apply(&mut g, &mut w);
    assert!(g.runners.empty());
    assert_eq!(g.outs, 1);
    assert_eq!(g.batter(), Some(201));
}

#[test]
fn inning_switch_resets_the_half() {
    let mut w = world();
    let mut g = game(&w, Weather::Sun);
    g.outs = 3;
    g.balls = 2;
    g.strikes = 1;
    g.scoring_plays_inning = 4;
    g.runners = on(&[(202, 1)]);
    Event::InningSwitch { inning: 1, top: false }.apply(&mut g, &mut w);
    assert_eq!((g.inning, g.balls, g.strikes, g.outs), (1, 0, 0, 0));
    assert!(!g.scoreboard.top);
    assert_eq!(g.scoring_plays_inning, 0);
    assert!(g.runners.empty());
    assert_eq!(g.linescore_away, vec![0]);
    Event::InningSwitch { inning: 2, top: true }.apply(&mut g, &mut w);
    assert_eq!(g.inning, 2);
    assert!(g.scoreboard.top);
}

#[test]
fn inning_switch_takes_the_bases_of_the_team_coming_to_bat() {
    let mut w = world();
    w.team_mut(100).mods.add(Mod::FifthBase, ModLifetime::Season);
    let mut g = game(&w, Weather::Sun);
    assert_eq!(g.runners.base_number, 4);
    Event::InningSwitch { inning: 1, top: false }.apply(&mut g, &mut w);
    assert_eq!(g.runners.base_number, 5);
    Event::InningSwitch { inning: 2, top: true }.apply(&mut g, &mut w);
    assert_eq!(g.runners.base_number, 4);
}

#[test]
fn under_salmon_weather_the_switch_writes_the_linescore() {
    let mut w = world();
    let mut g = game(&w, Weather::Salmon);
    g.scoreboard.away_team.score = 20;
    Event::InningSwitch { inning: 1, top: false }.apply(&mut g, &mut w);
    assert_eq!(g.linescore_away, vec![20, 20]);
    assert_eq!(g.linescore_home, vec![0]);
    g.scoreboard.home_team.score = 30;
    Event::InningSwitch { inning: 2, top: true }.apply(&mut g, &mut w);
    assert_eq!(g.linescore_home, vec![30, 30]);
    g.scoreboard.away_team.score = 50;
    Event::InningSwitch { inning: 2, top: false }.apply(&mut g, &mut w);
    assert_eq!(g.linescore_away, vec![50, 20, 30]);
}

#[test]
fn salmon_take_back_the_runs_of_the_half_before() {
    let mut w = world();
    let mut g = game(&w, Weather::Salmon);
    g.scoreboard.away_team.score = 20;
    Event::InningSwitch { inning: 1, top: false }.apply(&mut g, &mut w);
    Event::Salmon { home_runs_lost: false, away_runs_lost: true }.apply(&mut g, &mut w);
    assert_eq!(g.scoreboard.away_team.score, 0);
    assert_eq!(g.inning, 1);
    assert!(g.scoreboard.top);
    assert_eq!(g.salmon_resets_inning, 1);
}

#[test]
fn salmon_at_the_top_of_an_inning_take_the_inning_back() {
    let mut w = world();
    let mut g = game(&w, Weather::Salmon);
    g.scoreboard.top = false;
    g.inning = 3;
    g.scoreboard.home_team.score = 50;
    g.linescore_home = vec![30, 10, 20];
    Event::InningSwitch { inning: 4, top: true }.apply(&mut g, &mut w);
    assert_eq!(g.linescore_home, vec![50, 10, 20, 20]);
    Event::Salmon { home_runs_lost: true, away_runs_lost: false }.apply(&mut g, &mut w);
    assert_eq!(g.scoreboard.home_team.score, 30);
    assert_eq!(g.inning, 3);
    assert!(g.scoreboard.top);
    assert_eq!(g.salmon_resets_inning, 1);
}

#[test]
fn salmon_without_lost_runs_still_go_back() {
    let mut w = world();
    let mut g = game(&w, Weather::Salmon);
    g.scoreboard.top = false;
    g.scoreboard.away_team.score = 20;
    Event::Salmon { home_runs_lost: false, away_runs_lost: false }.apply(&mut g, &mut w);
    assert_eq!(g.scoreboard.away_team.score, 20);
    assert!(g.scoreboard.top);
    assert_eq!(g.inning, 1);
}

#[test]
fn the_second_sun_swallows_ten_runs() {
    let mut w = world();
    let mut g = game(&w, Weather::Sun2);
    g.scoreboard.home_team.score = 100;
    g.scoreboard.away_team.score = 30;
    Event::Sun2 { home_team: true }.apply(&mut g, &mut w);
    assert_eq!(g.scoreboard.home_team.score, 0);
    assert_eq!(g.scoreboard.away_team.score, 30);
    g.scoreboard.away_team.score = 125;
    Event::BlackHole { home_team: false }.apply(&mut g, &mut w);
    assert_eq!(g.scoreboard.away_team.score, 25);
}

#[test]
fn polarity_switch_toggles() {
    let mut w = world();
    let mut g = game(&w, Weather::PolarityPlus);
    Event::PolaritySwitch.apply(&mut g, &mut w);
    assert!(g.polarity);
    Event::PolaritySwitch.apply(&mut g, &mut w);
    assert!(!g.polarity);
}

#[test]
fn shelled_passes_the_batter_over() {
    let mut w = world();
    let mut g = game(&w, Weather::Sun);
    g.scoreboard.away_team.batter = None;
    Event::Shelled { batter: 201 }.apply(&mut g, &mut w);
    assert_eq!(g.scoreboard.away_team.batter_index, 1);
    assert_eq!(g.batter(), None);
    assert_eq!(w.player(201).feed.len(), 0);
}

#[test]
fn a_spicy_batter_heats_up_and_turns_red_hot() {
    let mut w = world();
    w.player_mut(201).mods.add(Mod::Spicy, ModLifetime::Permanent);
    let mut g = game(&w, Weather::Sun);
    Event::HomeRun.apply(&mut g, &mut w);
    assert!(w.player(201).mods.has(Mod::HeatingUp));
    assert!(!w.player(201).mods.has(Mod::RedHot));
    g.assign_batter(201);
    Event::BaseHit { bases: 1, runners_after: on(&[]) }.apply(&mut g, &mut w);
    assert!(!w.player(201).mods.has(Mod::HeatingUp));
    assert!(w.player(201).mods.has(Mod::RedHot));
    assert!(w.player(201).mods.has(Mod::Spicy));
}

#[test]
fn an_out_cools_the_batter_down_one_step() {
    let mut w = world();
    w.player_mut(201).mods.add(Mod::Spicy, ModLifetime::Permanent);
    w.player_mut(201).mods.add(Mod::RedHot, ModLifetime::Permanent);
    let mut g = game(&w, Weather::Sun);
    Event::GroundOut { fielder: 101, runners_after: on(&[]) }.apply(&mut g, &mut w);
    assert!(!w.player(201).mods.has(Mod::RedHot));
    assert!(w.player(201).mods.has(Mod::HeatingUp));
    g.assign_batter(201);
    Event::Flyout { fielder: 101, runners_after: on(&[]) }.apply(&mut g, &mut w);
    assert!(!w.player(201).mods.has(Mod::HeatingUp));
    assert!(w.player(201).mods.has(Mod::Spicy));
}

#[test]
fn a_hit_after_an_out_starts_a_new_streak() {
    let mut w = world();
    w.player_mut(201).mods.add(Mod::Spicy, ModLifetime::Permanent);
    let mut g = game(&w, Weather::Sun);
    Event::HomeRun.apply(&mut g, &mut w);
    g.assign_batter(201);
    Event::Strikeout.apply(&mut g, &mut w);
    assert!(w.player(201).mods.has(Mod::HeatingUp));
    w.player_mut(201).mods.remove(Mod::HeatingUp);
    g.assign_batter(201);
    Event::HomeRun.apply(&mut g, &mut w);
    assert!(w.player(201).mods.has(Mod::HeatingUp));
    assert!(!w.player(201).mods.has(Mod::RedHot));
}

#[test]
fn incineration_replaces_the_batter() {
    let mut w = world();
    let mut g = game(&w, Weather::Eclipse);
    let replacement = player(999, 0);
    Event::Incineration { target: 201, replacement }.apply(&mut g, &mut w);
    assert_eq!(g.batter(), Some(999));
    assert_eq!(w.team(200).lineup[0], 999);
    assert_eq!(w.player(999).team, Some(200));
    assert_eq!(w.player(999).name, "Player 00000000");
    assert_eq!(w.player(201).team, None);
    assert_eq!(w.hall, vec![201]);
}

#[test]
fn incineration_replaces_the_pitcher() {
    let mut w = world();
    let mut g = game(&w, Weather::Eclipse);
    let pitcher = g.pitcher();
    let replacement = player(998, 0);
    Event::IncinerationWithChain { target: pitcher, replacement, chain: Some(205) }
        .apply(&mut g, &mut w);
    assert_eq!(g.pitcher(), 998);
    assert_eq!(g.batter(), Some(201));
    assert_eq!(w.team(100).rotation[0], 998);
    assert!(w.player(205).mods.has(Mod::Unstable));
    assert_eq!(w.hall, vec![pitcher]);
}

#[test]
fn incineration_of_a_bystander_leaves_the_game_pointers() {
    let mut w = world();
    let mut g = game(&w, Weather::Eclipse);
    let replacement = player(997, 0);
    Event::IncinerationWithChain { target: 105, replacement, chain: None }.apply(&mut g, &mut w);
    assert_eq!(g.batter(), Some(201));
    assert_eq!(g.pitcher(), 111);
    assert_eq!(w.team(100).lineup[4], 997);
}

#[test]
fn peanuts_move_every_attribute_by_a_fifth() {
    let mut w = world();
    let mut g = game(&w, Weather::Peanuts);
    let before = w.player(201).attrs;
    Event::Peanut { target: 201, yummy: false }.apply(&mut g, &mut w);
    let after = w.player(201).attrs;
    for a in 0..26 {
        let sign = if a == 5 || a == 7 { 1 } else { -1 };
        assert_eq!(after[a], before[a] + sign * PEANUT_BOOST);
    }
    Event::Peanut { target: 201, yummy: true }.apply(&mut g, &mut w);
    assert_eq!(w.player(201).attrs, before);
    assert_eq!(PEANUT_BOOST * 5, sandbox::entities::ATTR_ONE);
}

#[test]
fn feedback_swaps_batter_and_fielder() {
    let mut w = world();
    let mut g = game(&w, Weather::Feedback);
    Event::Feedback { target1: 201, target2: 103 }.apply(&mut g, &mut w);
    assert_eq!(g.batter(), Some(103));
    assert_eq!(w.team(200).lineup[0], 103);
    assert_eq!(w.team(100).lineup[2], 201);
    assert_eq!(w.player(103).team, Some(200));
    assert_eq!(w.player(201).team, Some(100));
}

#[test]
fn feedback_swaps_the_pitchers() {
    let mut w = world();
    let mut g = game(&w, Weather::Feedback);
    Event::Feedback { target1: 111, target2: 212 }.apply(&mut g, &mut w);
    assert_eq!(g.pitcher(), 212);
    assert_eq!(g.batter(), Some(201));
    assert_eq!(w.team(100).rotation[0], 212);
    assert_eq!(w.team(200).rotation[1], 111);
}

#[test]
fn reverb_of_the_lineup_of_the_team_at_bat() {
    let mut w = world();
    let mut g = game(&w, Weather::Reverb);
    g.scoreboard.away_team.batter_index = 11;
    let rotation_before = w.team(200).rotation.clone();
    let changes = vec![8, 7, 6, 5, 4, 3, 2, 1, 0];
    Event::Reverb { reverb_type: 2, team: 200, changes }.apply(&mut g, &mut w);
    assert_eq!(w.team(200).lineup, vec![209, 208, 207, 206, 205, 204, 203, 202, 201]);
    assert_eq!(w.team(200).rotation, rotation_before);
    assert_eq!(g.batter(), Some(207));
    assert_eq!(g.pitcher(), 111);
}

#[test]
fn reverb_of_the_rotation_of_the_team_in_the_field() {
    let mut w = world();
    let mut g = game(&w, Weather::Reverb);
    let changes = vec![4, 0, 1, 2, 3];
    Event::Reverb { reverb_type: 3, team: 100, changes }.apply(&mut g, &mut w);
    assert_eq!(w.team(100).rotation, vec![115, 111, 112, 113, 114]);
    assert_eq!(g.pitcher(), 115);
    assert_eq!(g.batter(), Some(201));
}

#[test]
fn blooddrain_moves_a_tenth_of_a_group() {
    let mut w = world();
    let mut g = game(&w, Weather::Blooddrain);
    let drainer_before = w.player(111).attrs;
    let target_before = w.player(201).attrs;
    Event::Blooddrain { drainer: 111, target: 201, stat: 0, siphon: false, siphon_effect: -1 }
        .apply(&mut g, &mut w);
    for a in 0..26 {
        let hit = (8..14).contains(&a);
        let d = if hit { DRAIN_BOOST } else { 0 };
        assert_eq!(w.player(111).attrs[a], drainer_before[a] + d);
        assert_eq!(w.player(201).attrs[a], target_before[a] - d);
    }
    assert_eq!(DRAIN_BOOST * 10, sandbox::entities::ATTR_ONE);
}

#[test]
fn blooddrain_of_batting_turns_the_negative_attributes_round() {
    let mut w = world();
    let mut g = game(&w, Weather::Blooddrain);
    let before = w.player(111).attrs;
    Event::Blooddrain { drainer: 111, target: 201, stat: 1, siphon: false, siphon_effect: -1 }
        .apply(&mut g, &mut w);
    let after = w.player(111).attrs;
    assert_eq!(after[0], before[0] + DRAIN_BOOST);
    assert_eq!(after[5], before[5] - DRAIN_BOOST);
    assert_eq!(after[7], before[7] - DRAIN_BOOST);
    assert_eq!(after[8], before[8]);
    let mut w2 = world();
    let b2 = w2.player(111).attrs;
    Event::Blooddrain { drainer: 111, target: 201, stat: 2, siphon: false, siphon_effect: -1 }
        .apply(&mut g, &mut w2);
    assert_eq!(w2.player(111).attrs[19], b2[19] + DRAIN_BOOST);
    assert_eq!(w2.player(111).attrs[23], b2[23] + DRAIN_BOOST);
    assert_eq!(w2.player(111).attrs[18], b2[18]);
    Event::Blooddrain { drainer: 112, target: 202, stat: 3, siphon: false, siphon_effect: -1 }
        .apply(&mut g, &mut w2);
    let p = player(112, 100).attrs;
    assert_eq!(w2.player(112).attrs[14], p[14] + DRAIN_BOOST);
    assert_eq!(w2.player(112).attrs[18], p[18] + DRAIN_BOOST);
    assert_eq!(w2.player(112).attrs[19], p[19]);
    Event::Blooddrain { drainer: 113, target: 203, stat: 9, siphon: false, siphon_effect: -1 }
        .apply(&mut g, &mut w2);
    assert_eq!(w2.player(113).attrs, player(113, 100).attrs);
}

#[test]
fn night_shift_for_the_batter() {
    let mut w = world();
    let mut g = game(&w, Weather::Night);
    g.scoreboard.away_team.batter_index = 9;
    let before = w.player(223).attrs;
    let boosts: Vec<i64> = vec![100; 26];
    Event::NightShift { batter: true, replacement: 223, replacement_idx: 2, boosts }
        .apply(&mut g, &mut w);
    assert_eq!(g.batter(), Some(223));
    assert_eq!(w.team(200).lineup[0], 223);
    assert_eq!(w.team(200).shadows[2], 201);
    assert_eq!(w.player(223).attr(PlayerAttr::Buoyancy), before[0] + 100);
    assert_eq!(w.player(223).attr(PlayerAttr::Patheticism), before[5] - 100);
}

#[test]
fn night_shift_for_the_pitcher() {
    let mut w = world();
    let mut g = game(&w, Weather::Night);
    let boosts: Vec<i64> = vec![0; 26];
    Event::NightShift { batter: false, replacement: 121, replacement_idx: 0, boosts }
        .apply(&mut g, &mut w);
    assert_eq!(g.pitcher(), 121);
    assert_eq!(w.team(100).rotation[0], 121);
    assert_eq!(w.team(100).shadows[0], 111);
}

#[test]
fn soundproof_reduces_the_tangled_player_only() {
    let mut w = world();
    let mut g = game(&w, Weather::Feedback);
    let resists = w.player(201).attrs;
    let tangled = w.player(103).attrs;
    let reductions: Vec<i64> = vec![-7; 26];
    Event::Soundproof { resists: 201, tangled: 103, reductions }.apply(&mut g, &mut w);
    assert_eq!(w.player(201).attrs, resists);
    assert_eq!(w.player(103).attrs[0], tangled[0] - 7);
    assert_eq!(w.player(103).attrs[5], tangled[5] + 7);
    assert_eq!(g.batter(), Some(201));
}

#[test]
fn hit_by_pitch() {
    let mut w = world();
    let mut g = game(&w, Weather::Sun);
    g.runners = on(&[(202, 0)]);
    g.balls = 1;
    Event::HitByPitch { target: 201, hbp_type: 0 }.apply(&mut g, &mut w);
    assert!(w.player(201).mods.has(Mod::Unstable));
    assert_eq!(layout(&g), vec![(202, 1), (201, 0)]);
    assert_eq!(g.batter(), None);
    assert_eq!(g.balls, 0);
    assert_eq!(w.player(201).feed.len(), 0);
    g.assign_batter(203);
    Event::HitByPitch { target: 203, hbp_type: 1 }.apply(&mut g, &mut w);
    assert!(w.player(203).mods.has(Mod::Flickering));
    w.clear_weekly();
    assert!(!w.player(203).mods.has(Mod::Flickering));
}

#[test]
fn pecked_free() {
    let mut w = world();
    w.player_mut(204).mods.add(Mod::Shelled, ModLifetime::Permanent);
    let mut g = game(&w, Weather::Birds);
    Event::PeckedFree { player: 204 }.apply(&mut g, &mut w);
    assert!(!w.player(204).mods.has(Mod::Shelled));
    assert!(w.player(204).mods.has(Mod::Superallergic));
}

#[test]
fn bystanders_change_nothing_but_the_feed() {
    let mut w = world();
    let mut g = game(&w, Weather::Sun);
    g.balls = 1;
    g.runners = on(&[(202, 0)]);
    for e in [Event::Birds, Event::GameOver, Event::Fireproof { target: 201 }] {
        e.apply(&mut g, &mut w);
    }
    assert_eq!((g.balls, g.strikes, g.outs, g.inning), (1, 0, 0, 1));
    assert_eq!(layout(&g), vec![(202, 0)]);
    assert_eq!(g.batter(), Some(201));
    assert_eq!(g.events.len(), 3);
}

#[test]
fn a_clone_of_an_event_is_the_same_event() {
    let e = Event::BaseHit { bases: 2, runners_after: on(&[(202, 3), (203, 2)]) };
    let c = e.clone();
    match (&e, &c) {
        (
            Event::BaseHit { bases: a, runners_after: ra },
            Event::BaseHit { bases: b, runners_after: rb },
        ) => {
            assert_eq!(a, b);
            assert_eq!(ra.runners, rb.runners);
        }
        _ => panic!("another event"),
    }
    let n = Event::NightShift { batter: true, replacement: 7, replacement_idx: 1, boosts: vec![1, 2] };
    assert!(matches!(
        n.clone(),
        Event::NightShift { batter: true, replacement: 7, replacement_idx: 1, boosts } if boosts == vec![1, 2]
    ));
    assert_eq!(Event::Zap { batter: false }.clone().repr(), "zap");
}
