use pso_tsp::operators::{apply_mutation_and_gaussian, swap_toward_bests};
use pso_tsp::permutation::{check_permutation, identity_permutation, shuffle_vec};
use pso_tsp::rng::{RandomSource, PROBABILITY_SCALE};

fn advanced(seed: u64, draws: usize) -> u64 {
    let mut rng = RandomSource::new(seed);
    for _ in 0..draws {
        rng.next_u64();
    }
    rng.state()
}

#[test]
fn pull_expected_value() {
    let mut rng = RandomSource::new(11);
    let mut position = vec![3, 0, 5, 1, 4, 2];
    let personal = vec![1, 2, 3, 4, 5, 0];
    let global = vec![5, 4, 3, 2, 1, 0];
    swap_toward_bests(&mut position, &personal, &global, 500_000, 300_000, &mut rng);
    assert_eq!(position, vec![3, 4, 0, 1, 5, 2]);
    assert_eq!(rng.state(), 7_681_369_315_911_520_519);
}

#[test]
fn pull_reads_best_entries_as_positions() {
    let mut rng = RandomSource::new(11);
    let mut position = vec![0, 1, 2];
    let personal = vec![2, 0, 1];
    let global = vec![0, 1, 2];
    swap_toward_bests(&mut position, &personal, &global, PROBABILITY_SCALE, 0, &mut rng);
    // 0 <-> 2, then 1 <-> 0, then 2 <-> 1
    assert_eq!(position, vec![1, 0, 2]);
}

#[test]
fn pull_with_thresholds_above_one_always_swaps() {
    for seed in 0..50u64 {
        let mut rng = RandomSource::new(seed);
        let mut position = vec![0, 1, 2];
        let personal = vec![2, 0, 1];
        let global = vec![1, 2, 0];
        swap_toward_bests(&mut position, &personal, &global, 1_494_450, 1_494_450, &mut rng);
        let mut expected = vec![0usize, 1, 2];
        for i in 0..3 {
            expected.swap(i, personal[i]);
            expected.swap(i, global[i]);
        }
        assert_eq!(position, expected);
        assert_eq!(position, vec![0, 1, 2]);
    }
}

#[test]
fn pull_with_threshold_of_exactly_one_always_swaps() {
    for seed in 0..50u64 {
        let mut rng = RandomSource::new(seed);
        let mut position = vec![4, 3, 2, 1, 0];
        let personal = vec![1, 2, 3, 4, 0];
        let global = vec![0, 1, 2, 3, 4];
        swap_toward_bests(
            &mut position,
            &personal,
            &global,
            PROBABILITY_SCALE,
            PROBABILITY_SCALE,
            &mut rng,
        );
        let mut expected = vec![4usize, 3, 2, 1, 0];
        for i in 0..5 {
            expected.swap(i, personal[i]);
        }
        assert_eq!(position, expected);
    }
}

#[test]
fn pull_with_zero_thresholds_never_swaps() {
    for seed in 0..50u64 {
        let mut rng = RandomSource::new(seed);
        let mut position = vec![0, 1, 2];
        swap_toward_bests(&mut position, &vec![2, 0, 1], &vec![1, 2, 0], 0, 0, &mut rng);
        assert_eq!(position, vec![0, 1, 2]);
    }
}

#[test]
fn pull_makes_two_draws_for_each_index() {
    let mut rng = RandomSource::new(11);
    let mut position = vec![0, 1, 2];
    swap_toward_bests(&mut position, &vec![2, 0, 1], &vec![1, 2, 0], 0, 0, &mut rng);
    assert_eq!(rng.state(), 13_064_056_694_810_536_073);
    assert_eq!(rng.state(), advanced(11, 6));
    let mut other = RandomSource::new(11);
    let mut moved = vec![0, 1, 2];
    swap_toward_bests(&mut moved, &vec![2, 0, 1], &vec![1, 2, 0], 700_000, 200_000, &mut other);
    assert_eq!(other.state(), advanced(11, 6));
}

#[test]
fn pull_follows_the_drawn_probabilities() {
    for seed in 100..160u64 {
        let mut setup = RandomSource::new(seed);
        let mut start = identity_permutation(9);
        let mut personal = identity_permutation(9);
        let mut global = identity_permutation(9);
        shuffle_vec(&mut start, &mut setup);
        shuffle_vec(&mut personal, &mut setup);
        shuffle_vec(&mut global, &mut setup);
        let state = setup.state();
        let mut rng = RandomSource::new(state);
        let mut draws = RandomSource::new(state);
        let mut position = start.clone();
        swap_toward_bests(&mut position, &personal, &global, 650_000, 350_000, &mut rng);
        let mut expected = start.clone();
        for i in 0..9 {
            if draws.probability() < 650_000 {
                expected.swap(i, personal[i]);
            }
            if draws.probability() < 350_000 {
                expected.swap(i, global[i]);
            }
        }
        assert_eq!(position, expected);
        assert_eq!(check_permutation(&position), Ok(()));
    }
}

#[test]
fn pull_of_an_empty_tour() {
    let mut rng = RandomSource::new(1);
    let mut position: Vec<usize> = Vec::new();
    swap_toward_bests(&mut position, &Vec::new(), &Vec::new(), 1_494_450, 1_494_450, &mut rng);
    assert!(position.is_empty());
    assert_eq!(rng.state(), 1);
}

#[test]
fn mutation_with_rate_zero_changes_nothing() {
    let mut rng = RandomSource::new(5);
    let mut position = identity_permutation(6);
    apply_mutation_and_gaussian(&mut position, 0, &mut rng);
    assert_eq!(position, vec![0, 1, 2, 3, 4, 5]);
    assert_eq!(rng.state(), 4_354_685_564_936_845_359);
    assert_eq!(rng.state(), advanced(5, 2));
}

#[test]
fn mutation_with_rate_one_swaps_twice() {
    let mut rng = RandomSource::new(5);
    let mut position = identity_permutation(6);
    apply_mutation_and_gaussian(&mut position, PROBABILITY_SCALE, &mut rng);
    assert_eq!(position, vec![0, 5, 2, 3, 1, 4]);
    assert_eq!(rng.state(), 13_064_056_694_810_536_067);
    assert_eq!(rng.state(), advanced(5, 6));
}

#[test]
fn mutation_expected_value_at_the_standard_rate() {
    let mut rng = RandomSource::new(9);
    let mut position = identity_permutation(6);
    apply_mutation_and_gaussian(&mut position, 100_000, &mut rng);
    assert_eq!(position, vec![4, 1, 2, 3, 0, 5]);
    assert_eq!(rng.state(), 8_709_371_129_873_690_717);
    let mut quiet = RandomSource::new(1);
    let mut unchanged = identity_permutation(6);
    apply_mutation_and_gaussian(&mut unchanged, 100_000, &mut quiet);
    assert_eq!(unchanged, vec![0, 1, 2, 3, 4, 5]);
    assert_eq!(quiet.state(), 4_354_685_564_936_845_355);
}

#[test]
fn mutation_makes_two_independent_trials() {
    for seed in 0..300u64 {
        let mut rng = RandomSource::new(seed);
        let mut draws = RandomSource::new(seed);
        let mut position = identity_permutation(7);
        apply_mutation_and_gaussian(&mut position, 400_000, &mut rng);
        let mut expected = identity_permutation(7);
        for _ in 0..2 {
            if draws.probability() < 400_000 {
                let i = draws.uniform_index(7);
                let j = draws.uniform_index(7);
                expected.swap(i, j);
            }
        }
        assert_eq!(position, expected);
        assert_eq!(rng.state(), draws.state());
        assert_eq!(check_permutation(&position), Ok(()));
    }
}

#[test]
fn mutation_rate_is_met_in_the_long_run() {
    let mut rng = RandomSource::new(555);
    let mut swaps = 0u32;
    for _ in 0..20_000 {
        let before = rng.state();
        let mut position = identity_permutation(50);
        apply_mutation_and_gaussian(&mut position, 100_000, &mut rng);
        if rng.state() != advanced(before, 2) {
            swaps += 1;
        }
    }
    // each pass succeeds at least once with probability 0.19
    assert!((3_400..4_200).contains(&swaps));
}

#[test]
fn mutation_of_a_single_city() {
    let mut rng = RandomSource::new(5);
    let mut position = vec![0];
    apply_mutation_and_gaussian(&mut position, PROBABILITY_SCALE, &mut rng);
    assert_eq!(position, vec![0]);
}
