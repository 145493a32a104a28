use sandbox::bases::{id_among, Baserunner, Baserunners};
use sandbox::rng::DRAW_SPAN;

fn on(bases: &[(u128, u8)]) -> Baserunners {
    let mut r = Baserunners::new(4);
    for (id, base) in bases {
        r.add(*base, *id);
    }
    r
}

fn layout(r: &Baserunners) -> Vec<(u128, u8)> {
    r.iter().iter().map(|x| (x.id, x.base)).collect()
}

#[test]
fn new_bases_are_empty() {
    let r = Baserunners::new(5);
    assert!(r.empty());
    assert_eq!(r.base_number, 5);
    assert!(!r.occupied(0));
    assert_eq!(r.at(0), None);
}

#[test]
fn occupied_at_contains() {
    let r = on(&[(7, 0), (8, 2)]);
    assert!(r.occupied(0));
    assert!(!r.occupied(1));
    assert!(r.occupied(2));
    assert_eq!(r.at(2), Some(8));
    assert_eq!(r.at(1), None);
    assert!(r.contains(7));
    assert!(!r.contains(9));
}

#[test]
fn can_advance_looks_at_the_next_base() {
    let r = on(&[(7, 0), (8, 1)]);
    assert!(!r.can_advance(0));
    assert!(r.can_advance(1));
    assert!(r.can_advance(2));
    assert!(r.can_advance(255));
}

#[test]
fn advance_moves_only_the_runner_on_the_base() {
    let mut r = on(&[(7, 0), (8, 2)]);
    r.advance(0);
    assert_eq!(layout(&r), vec![(7, 1), (8, 2)]);
    r.advance(0);
    assert_eq!(layout(&r), vec![(7, 1), (8, 2)]);
}

#[test]
fn remove_takes_the_runner_off() {
    let mut r = on(&[(7, 0), (8, 2)]);
    assert_eq!(r.remove(0), Some(7));
    assert_eq!(layout(&r), vec![(8, 2)]);
    assert_eq!(r.remove(1), None);
    assert_eq!(layout(&r), vec![(8, 2)]);
}

#[test]
fn advance_all_moves_everybody() {
    let mut r = on(&[(7, 0), (8, 2)]);
    r.advance_all(2);
    assert_eq!(layout(&r), vec![(7, 2), (8, 4)]);
}

#[test]
fn walk_pushes_the_chain_from_first_base() {
    let mut loaded = on(&[(1, 2), (2, 1), (3, 0)]);
    loaded.walk();
    assert_eq!(layout(&loaded), vec![(1, 3), (2, 2), (3, 1)]);

    let mut gap = on(&[(1, 2), (3, 0)]);
    gap.walk();
    assert_eq!(layout(&gap), vec![(1, 2), (3, 1)]);

    let mut free = on(&[(1, 2), (2, 1)]);
    free.walk();
    assert_eq!(layout(&free), vec![(1, 2), (2, 1)]);

    let mut empty = Baserunners::new(4);
    empty.walk();
    assert!(empty.empty());
}

#[test]
fn walk_with_five_bases() {
    let mut r = Baserunners::new(5);
    for (id, base) in [(1u128, 3u8), (2, 2), (3, 1), (4, 0)] {
        r.add(base, id);
    }
    r.walk();
    assert_eq!(layout(&r), vec![(1, 4), (2, 3), (3, 2), (4, 1)]);
}

#[test]
fn walk_instincts() {
    let mut third = on(&[(1, 0)]);
    third.walk_instincts(true);
    assert_eq!(layout(&third), vec![(1, 3)]);
    let mut second = on(&[(1, 0), (2, 1)]);
    second.walk_instincts(false);
    assert_eq!(layout(&second), vec![(1, 2), (2, 3)]);
    let mut only_second_base = on(&[(2, 1)]);
    only_second_base.walk_instincts(false);
    assert_eq!(layout(&only_second_base), vec![(2, 2)]);
    let mut neither = on(&[(2, 2)]);
    neither.walk_instincts(false);
    assert_eq!(layout(&neither), vec![(2, 2)]);
}

#[test]
fn advance_if_moves_those_who_may_and_can() {
    let mut r = on(&[(1, 2), (2, 0)]);
    r.advance_if(&vec![1, 2]);
    assert_eq!(layout(&r), vec![(1, 3), (2, 1)]);
    let mut only_one = on(&[(1, 2), (2, 0)]);
    only_one.advance_if(&vec![2]);
    assert_eq!(layout(&only_one), vec![(1, 2), (2, 1)]);
}

#[test]
fn advance_if_goes_by_the_layout_of_the_moment() {
    let mut lead_first = on(&[(1, 1), (2, 0)]);
    lead_first.advance_if(&vec![1, 2]);
    assert_eq!(layout(&lead_first), vec![(1, 2), (2, 1)]);
    let mut trail_first = on(&[(2, 0), (1, 1)]);
    trail_first.advance_if(&vec![1, 2]);
    assert_eq!(layout(&trail_first), vec![(2, 0), (1, 2)]);
}

#[test]
fn add_and_clear() {
    let mut r = Baserunners::new(4);
    r.add(1, 42);
    assert_eq!(layout(&r), vec![(42, 1)]);
    assert!(!r.empty());
    r.clear();
    assert!(r.empty());
    assert_eq!(r.base_number, 4);
}

#[test]
fn pick_runner_goes_by_the_order_of_the_runners() {
    let r = on(&[(1, 2), (2, 0), (3, 1)]);
    assert_eq!(r.pick_runner(0), 2);
    assert_eq!(r.pick_runner(DRAW_SPAN / 3), 2);
    assert_eq!(r.pick_runner(DRAW_SPAN / 3 + 1), 0);
    assert_eq!(r.pick_runner(DRAW_SPAN - 1), 1);
    assert_eq!(on(&[(9, 1)]).pick_runner(DRAW_SPAN - 1), 1);
}

#[test]
fn fielders_choice_takes_the_lead_runner_up_to_third() {
    assert_eq!(on(&[(1, 0)]).pick_runner_fc(), 0);
    assert_eq!(on(&[(1, 0), (2, 1)]).pick_runner_fc(), 1);
    assert_eq!(on(&[(1, 0), (2, 1), (3, 2)]).pick_runner_fc(), 2);
    assert_eq!(on(&[(1, 0), (3, 2)]).pick_runner_fc(), 2);
    assert_eq!(Baserunners::new(4).pick_runner_fc(), 0);
}

#[test]
fn fielders_choice_is_the_same_with_five_bases() {
    let mut r = Baserunners::new(5);
    r.add(0, 1);
    r.add(3, 2);
    assert_eq!(r.pick_runner_fc(), 0);
    r.add(2, 3);
    assert_eq!(r.pick_runner_fc(), 2);
}

#[test]
fn a_clone_is_a_copy() {
    let r = on(&[(1, 0)]);
    let mut copy = r.clone();
    copy.advance(0);
    assert_eq!(layout(&r), vec![(1, 0)]);
    assert_eq!(layout(&copy), vec![(1, 1)]);
    assert_eq!(copy.base_number, 4);
    assert_eq!(Baserunner { id: 1, base: 0 }, r.runners[0]);
}

#[test]
fn id_among_lists() {
    assert!(id_among(&vec![3, 5], 5));
    assert!(!id_among(&vec![3, 5], 4));
    assert!(!id_among(&Vec::new(), 4));
}

#[test]
fn forced_advance_with_first_and_second_occupied_moves_everybody() {
    let mut r = on(&[(1, 0), (2, 1), (3, 3)]);
    r.forced_advance_if(&Vec::new());
    assert_eq!(layout(&r), vec![(1, 1), (2, 2), (3, 4)]);
}

#[test]
fn forced_advance_lets_the_willing_advance_and_walks_the_runner_on_first() {
    let mut willing = on(&[(1, 2), (2, 0)]);
    willing.forced_advance_if(&vec![1, 2]);
    assert_eq!(layout(&willing), vec![(1, 3), (2, 1)]);
    let mut unwilling = on(&[(1, 2), (2, 0)]);
    unwilling.forced_advance_if(&Vec::new());
    assert_eq!(layout(&unwilling), vec![(1, 2), (2, 1)]);
    let mut blocked = on(&[(1, 1), (2, 2)]);
    blocked.forced_advance_if(&vec![1]);
    assert_eq!(layout(&blocked), vec![(1, 1), (2, 2)]);
}

#[test]
fn iter_mut_changes_the_runners_in_place() {
    let mut r = on(&[(1, 0), (2, 1)]);
    for runner in r.iter_mut().iter_mut() {
        runner.base += 1;
    }
    assert_eq!(layout(&r), vec![(1, 1), (2, 2)]);
}
