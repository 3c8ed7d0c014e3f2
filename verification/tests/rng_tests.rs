use pso_tsp::rng::{random_range, RandomSource, PROBABILITY_SCALE};

#[test]
fn splitmix_known_outputs() {
    let mut rng = RandomSource::new(0);
    assert_eq!(rng.next_u64(), 0xE220_A839_7B1D_CDAF);
    assert_eq!(rng.next_u64(), 0x6E78_9E6A_A1B9_65F4);
    assert_eq!(rng.next_u64(), 0x06C4_5D18_8009_454F);
}

#[test]
fn new_starts_in_the_seed_state() {
    let rng = RandomSource::new(123_456);
    assert_eq!(rng.state(), 123_456);
}

#[test]
fn each_draw_advances_the_state_by_the_increment() {
    let mut rng = RandomSource::new(42);
    rng.next_u64();
    assert_eq!(rng.state(), 42u64.wrapping_add(0x9E37_79B9_7F4A_7C15));
    let mut wrapped = RandomSource::new(u64::MAX);
    wrapped.next_u64();
    assert_eq!(wrapped.state(), 0x9E37_79B9_7F4A_7C14);
}

#[test]
fn same_seed_gives_same_sequence() {
    let mut a = RandomSource::new(2024);
    let mut b = RandomSource::new(2024);
    for _ in 0..1000 {
        assert_eq!(a.next_u64(), b.next_u64());
    }
    assert_eq!(a.state(), b.state());
}

#[test]
fn different_seeds_give_different_sequences() {
    let mut a = RandomSource::new(1);
    let mut b = RandomSource::new(2);
    let first: Vec<u64> = (0..8).map(|_| a.next_u64()).collect();
    let second: Vec<u64> = (0..8).map(|_| b.next_u64()).collect();
    assert_ne!(first, second);
}

#[test]
fn generator_can_be_rebuilt_from_its_state() {
    let mut rng = RandomSource::new(99);
    for _ in 0..5 {
        rng.next_u64();
    }
    let mut copy = RandomSource::new(rng.state());
    for _ in 0..20 {
        assert_eq!(rng.next_u64(), copy.next_u64());
    }
}

#[test]
fn uniform_below_expected_values() {
    let mut rng = RandomSource::new(42);
    let drawn: Vec<u64> = (0..5).map(|_| rng.uniform_below(10)).collect();
    assert_eq!(drawn, vec![3, 1, 8, 4, 0]);
    assert_eq!(rng.state(), 1_663_341_875_487_337_619);
}

#[test]
fn uniform_below_is_the_draw_reduced_by_the_bound() {
    let mut raw = RandomSource::new(31);
    let mut bounded = RandomSource::new(31);
    for bound in [1u64, 2, 3, 7, 100, 1 << 40, u64::MAX] {
        let value = raw.next_u64();
        assert_eq!(bounded.uniform_below(bound), value % bound);
    }
}

#[test]
fn uniform_below_one_is_zero() {
    let mut rng = RandomSource::new(5);
    for _ in 0..50 {
        assert_eq!(rng.uniform_below(1), 0);
    }
}

#[test]
fn uniform_index_stays_below_len() {
    let mut rng = RandomSource::new(8);
    for len in 1..200usize {
        let index = rng.uniform_index(len);
        assert!(index < len);
    }
}

#[test]
fn uniform_index_matches_uniform_below() {
    let mut a = RandomSource::new(17);
    let mut b = RandomSource::new(17);
    for len in [1usize, 2, 20, 500, 65_537] {
        assert_eq!(a.uniform_index(len) as u64, b.uniform_below(len as u64));
    }
}

#[test]
fn probability_expected_values() {
    let mut rng = RandomSource::new(42);
    assert_eq!(rng.probability(), 275_413);
    assert_eq!(rng.probability(), 892_291);
    assert_eq!(rng.probability(), 763_858);
}

#[test]
fn probability_stays_below_one() {
    let mut rng = RandomSource::new(77);
    for _ in 0..10_000 {
        assert!(rng.probability() < PROBABILITY_SCALE);
    }
}

#[test]
fn probability_scale_is_one_million() {
    assert_eq!(PROBABILITY_SCALE, 1_000_000);
}

#[test]
fn random_range_expected_values() {
    let mut rng = RandomSource::new(7);
    let drawn: Vec<i32> = (0..6).map(|_| random_range(&mut rng, -5, 5)).collect();
    assert_eq!(drawn, vec![2, -1, 1, -2, -1, 0]);
}

#[test]
fn random_range_stays_in_range() {
    let mut rng = RandomSource::new(1234);
    for _ in 0..10_000 {
        let value = random_range(&mut rng, 0, 100);
        assert!((0..100).contains(&value));
    }
    for _ in 0..1000 {
        let value = random_range(&mut rng, -3, -1);
        assert!(value == -3 || value == -2);
    }
}

#[test]
fn random_range_of_one_value() {
    let mut rng = RandomSource::new(6);
    for _ in 0..20 {
        assert_eq!(random_range(&mut rng, 41, 42), 41);
    }
}

#[test]
fn random_range_over_the_widest_span() {
    let mut rng = RandomSource::new(3);
    for _ in 0..1000 {
        let value = random_range(&mut rng, i32::MIN, i32::MAX);
        assert!(value < i32::MAX);
    }
    let mut a = RandomSource::new(3);
    let mut b = RandomSource::new(3);
    let span = (i32::MAX as i64 - i32::MIN as i64) as u64;
    let expected = i32::MIN as i64 + (a.next_u64() % span) as i64;
    assert_eq!(random_range(&mut b, i32::MIN, i32::MAX) as i64, expected);
}

#[test]
fn random_range_makes_one_draw() {
    let mut rng = RandomSource::new(50);
    let mut twin = RandomSource::new(50);
    random_range(&mut rng, 0, 10);
    twin.next_u64();
    assert_eq!(rng.state(), twin.state());
}

#[test]
fn draws_cover_a_small_range() {
    let mut rng = RandomSource::new(2);
    let mut seen = [false; 10];
    for _ in 0..1000 {
        seen[rng.uniform_index(10)] = true;
    }
    assert!(seen.iter().all(|&s| s));
}
