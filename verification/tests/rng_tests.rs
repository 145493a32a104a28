use sandbox::rng::{pick_index, Rng, DRAW_SPAN};

#[test]
fn same_seed_gives_same_draws() {
    let mut a = Rng::new(69, 420);
    let mut b = Rng::new(69, 420);
    for _ in 0..1000 {
        assert_eq!(a.next(), b.next());
    }
}

#[test]
fn first_draws_of_the_canonical_seed() {
    let mut rng = Rng::new(69, 420);
    let draws: Vec<u64> = (0..6).map(|_| rng.next()).collect();
    assert_eq!(draws, vec![0, 141313, 985095, 1185411115077, 7215546043557, 7216123875751]);
}

#[test]
fn first_draws_of_small_seeds() {
    let mut rng = Rng::new(1, 2);
    assert_eq!(rng.next(), 0);
    assert_eq!(rng.next(), 2048);
    assert_eq!(rng.next(), 6144);
    let mut zero = Rng::new(0, 0);
    assert_eq!(zero.next(), 0);
    assert_eq!(zero.next(), 0);
}

#[test]
fn draws_of_the_all_ones_seed_keep_52_bits() {
    let mut rng = Rng::new(u64::MAX, u64::MAX);
    assert_eq!(rng.next(), 4503599627370495);
    assert_eq!(rng.next(), 4503599560263679);
    assert_eq!(rng.next(), 4503599627370495);
}

#[test]
fn step_is_the_same_as_a_discarded_draw() {
    let mut a = Rng::new(12345, 67890);
    let mut b = Rng::new(12345, 67890);
    a.step();
    let _ = b.next();
    assert_eq!(a.next(), b.next());
}

#[test]
fn draws_stay_below_the_span() {
    let mut rng = Rng::new(0xdead_beef, 0xfeed_face);
    for _ in 0..10_000 {
        assert!(rng.next() < DRAW_SPAN);
    }
}

#[test]
fn a_draw_is_the_mantissa_of_the_double() {
    let mut rng = Rng::new(2200200200200200200, 1234567890987654321);
    for _ in 0..100 {
        let m = rng.next();
        let double = f64::from_bits(m | 0x3FF0000000000000) - 1.0;
        assert!(double >= 0.0 && double < 1.0);
        assert_eq!(double, m as f64 / DRAW_SPAN as f64);
    }
}

#[test]
fn a_draw_does_not_give_the_state_away() {
    let mut a = Rng::new(7, 0x1234_5000);
    let mut b = Rng::new(7, 0x1234_5001);
    assert_eq!(a.next(), b.next());
    let mut later_differs = false;
    for _ in 0..8 {
        if a.next() != b.next() {
            later_differs = true;
        }
    }
    assert!(later_differs);
}

#[test]
fn pick_index_is_the_whole_part_of_the_product() {
    assert_eq!(pick_index(0, 9), 0);
    assert_eq!(pick_index(DRAW_SPAN - 1, 9), 8);
    assert_eq!(pick_index(DRAW_SPAN / 2, 9), 4);
    assert_eq!(pick_index(DRAW_SPAN / 2, 4), 2);
    assert_eq!(pick_index(DRAW_SPAN / 4 - 1, 4), 0);
    assert_eq!(pick_index(DRAW_SPAN / 4, 4), 1);
    assert_eq!(pick_index(DRAW_SPAN - 1, 1), 0);
    assert_eq!(pick_index(DRAW_SPAN - 1, 0), 0);
    assert_eq!(pick_index(DRAW_SPAN - 1, usize::MAX), usize::MAX - 4096);
}

#[test]
fn index_takes_one_draw() {
    let mut a = Rng::new(99, 100);
    let mut b = Rng::new(99, 100);
    for len in [1usize, 2, 9, 240, 440] {
        let i = a.index(len);
        let m = b.next();
        assert_eq!(i, pick_index(m, len));
        assert!(i < len);
    }
}
