use pso_tsp::error::TspError;
use pso_tsp::permutation::{check_permutation, identity_permutation, shuffle_vec, swap_entries};
use pso_tsp::rng::RandomSource;

#[test]
fn identity_permutation_counts_up() {
    assert_eq!(identity_permutation(0), Vec::<usize>::new());
    assert_eq!(identity_permutation(1), vec![0]);
    assert_eq!(identity_permutation(5), vec![0, 1, 2, 3, 4]);
}

#[test]
fn swap_entries_exchanges_two_positions() {
    let mut v = vec![10, 20, 30, 40];
    swap_entries(&mut v, 0, 3);
    assert_eq!(v, vec![40, 20, 30, 10]);
    swap_entries(&mut v, 2, 1);
    assert_eq!(v, vec![40, 30, 20, 10]);
}

#[test]
fn swap_entries_with_itself_changes_nothing() {
    let mut v = vec![3, 1, 2];
    swap_entries(&mut v, 1, 1);
    assert_eq!(v, vec![3, 1, 2]);
}

#[test]
fn shuffle_expected_value() {
    let mut rng = RandomSource::new(42);
    let mut v = identity_permutation(8);
    shuffle_vec(&mut v, &mut rng);
    assert_eq!(v, vec![5, 3, 1, 4, 7, 0, 6, 2]);
    assert_eq!(rng.state(), 17_418_742_259_747_381_458);
}

#[test]
fn shuffle_swaps_each_position_with_a_drawn_one() {
    let mut rng = RandomSource::new(1001);
    let mut draws = RandomSource::new(1001);
    let mut v: Vec<usize> = vec![7, 7, 3, 9, 0, 4];
    let mut expected = v.clone();
    shuffle_vec(&mut v, &mut rng);
    for i in 0..expected.len() {
        let j = draws.uniform_index(expected.len());
        expected.swap(i, j);
    }
    assert_eq!(v, expected);
    assert_eq!(rng.state(), draws.state());
}

#[test]
fn shuffle_keeps_a_permutation() {
    for seed in 0..200u64 {
        let mut rng = RandomSource::new(seed);
        let n = 1 + (seed as usize % 30);
        let mut v = identity_permutation(n);
        shuffle_vec(&mut v, &mut rng);
        assert_eq!(v.len(), n);
        assert_eq!(check_permutation(&v), Ok(()));
        let mut sorted = v.clone();
        sorted.sort();
        assert_eq!(sorted, identity_permutation(n));
    }
}

#[test]
fn shuffle_keeps_the_entries_of_any_vector() {
    let mut rng = RandomSource::new(8);
    let mut v: Vec<usize> = vec![5, 5, 9, 1, 1, 1, 100];
    shuffle_vec(&mut v, &mut rng);
    let mut sorted = v.clone();
    sorted.sort();
    assert_eq!(sorted, vec![1, 1, 1, 5, 5, 9, 100]);
}

#[test]
fn shuffle_of_nothing_draws_nothing() {
    let mut rng = RandomSource::new(4);
    let mut v: Vec<usize> = Vec::new();
    shuffle_vec(&mut v, &mut rng);
    assert!(v.is_empty());
    assert_eq!(rng.state(), 4);
}

#[test]
fn shuffle_of_one_entry() {
    let mut rng = RandomSource::new(4);
    let mut twin = RandomSource::new(4);
    let mut v: Vec<usize> = vec![0];
    shuffle_vec(&mut v, &mut rng);
    twin.next_u64();
    assert_eq!(v, vec![0]);
    assert_eq!(rng.state(), twin.state());
}

#[test]
fn shuffle_makes_one_draw_for_each_position() {
    let mut rng = RandomSource::new(12);
    let mut twin = RandomSource::new(12);
    let mut v = identity_permutation(20);
    shuffle_vec(&mut v, &mut rng);
    for _ in 0..20 {
        twin.next_u64();
    }
    assert_eq!(rng.state(), twin.state());
}

#[test]
fn check_permutation_accepts_permutations() {
    assert_eq!(check_permutation(&[]), Ok(()));
    assert_eq!(check_permutation(&[0]), Ok(()));
    assert_eq!(check_permutation(&[1, 0]), Ok(()));
    assert_eq!(check_permutation(&[3, 1, 4, 0, 2]), Ok(()));
}

#[test]
fn check_permutation_rejects_a_duplicate() {
    assert_eq!(check_permutation(&[0, 0]), Err(TspError::InternalInvariantViolation));
    assert_eq!(check_permutation(&[2, 1, 2]), Err(TspError::InternalInvariantViolation));
    assert_eq!(check_permutation(&[0, 1, 2, 3, 1]), Err(TspError::InternalInvariantViolation));
}

#[test]
fn check_permutation_rejects_an_index_out_of_range() {
    assert_eq!(check_permutation(&[1]), Err(TspError::InternalInvariantViolation));
    assert_eq!(check_permutation(&[0, 1, 3]), Err(TspError::InternalInvariantViolation));
    assert_eq!(check_permutation(&[usize::MAX, 0]), Err(TspError::InternalInvariantViolation));
}

#[test]
fn a_permutation_holds_every_index() {
    let mut rng = RandomSource::new(321);
    let mut v = identity_permutation(25);
    shuffle_vec(&mut v, &mut rng);
    for index in 0..25usize {
        assert!(v.contains(&index));
    }
}
