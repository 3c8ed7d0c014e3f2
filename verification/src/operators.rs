//! The swap operators that move a particle: the pull toward the two best
//! tours, and the mutation.

use vstd::prelude::*;
use crate::cost::in_catalog;
use crate::permutation::{
    is_permutation, lemma_swap_keeps_permutation, swap_entries, swapped,
};
use crate::rng::{
    advance, draw_below, draw_probability, lemma_advance_step, next_state, RandomSource,
};

verus! {

/// `position` after the swap that the threshold `threshold` grants when the
/// generator is in state `s`: the entry at `i` is exchanged with the entry at
/// `target` if the drawn probability is below the threshold.
pub open spec fn pulled(position: Seq<usize>, i: int, target: int, threshold: u64, s: u64) -> Seq<
    usize,
> {
    if draw_probability(s) < threshold {
        swapped(position, i, target)
    } else {
        position
    }
}

/// `position` after the first `k` steps of the pull toward the tours
/// `personal` and `global`, started in generator state `s`. Step `i` makes
/// two draws. The first decides whether the entry at `i` is exchanged with
/// the entry at index `personal[i]`, the second whether the entry at `i` is
/// then exchanged with the entry at index `global[i]`: the cities of the two
/// best tours are read as positions.
pub open spec fn pull_steps(
    position: Seq<usize>,
    personal: Seq<usize>,
    global: Seq<usize>,
    cognitive: u64,
    social: u64,
    s: u64,
    k: nat,
) -> Seq<usize>
    decreases k,
{
    if k == 0 {
        position
    } else {
        let i = k - 1;
        let before = pull_steps(position, personal, global, cognitive, social, s, i as nat);
        let first = advance(s, (2 * i) as nat);
        let own = pulled(before, i, personal[i] as int, cognitive, first);
        pulled(own, i, global[i] as int, social, next_state(first))
    }
}

/// `position` after the whole pull toward `personal` and `global`.
pub open spec fn pulled_toward_bests(
    position: Seq<usize>,
    personal: Seq<usize>,
    global: Seq<usize>,
    cognitive: u64,
    social: u64,
    s: u64,
) -> Seq<usize> {
    pull_steps(position, personal, global, cognitive, social, s, position.len())
}

/// The pull rearranges the tour by swaps.
pub proof fn lemma_pull_steps_rearrange(
    position: Seq<usize>,
    personal: Seq<usize>,
    global: Seq<usize>,
    cognitive: u64,
    social: u64,
    s: u64,
    k: nat,
)
    requires
        k <= position.len(),
        personal.len() == position.len(),
        global.len() == position.len(),
        in_catalog(personal, position.len()),
        in_catalog(global, position.len()),
    ensures
        pull_steps(position, personal, global, cognitive, social, s, k).len() == position.len(),
        pull_steps(position, personal, global, cognitive, social, s, k).to_multiset()
            == position.to_multiset(),
        is_permutation(position) ==> is_permutation(
            pull_steps(position, personal, global, cognitive, social, s, k),
        ),
    decreases k,
{
    if k > 0 {
        let i = k - 1;
        lemma_pull_steps_rearrange(position, personal, global, cognitive, social, s, i as nat);
        let before = pull_steps(position, personal, global, cognitive, social, s, i as nat);
        let first = advance(s, (2 * i) as nat);
        let own = pulled(before, i, personal[i] as int, cognitive, first);
        lemma_swap_keeps_permutation(before, i, personal[i] as int);
        lemma_swap_keeps_permutation(own, i, global[i] as int);
    }
}

/// A threshold of `PROBABILITY_SCALE` or more makes the swap unconditional.
pub proof fn lemma_pull_unconditional(
    position: Seq<usize>,
    i: int,
    target: int,
    threshold: u64,
    s: u64,
)
    requires
        threshold >= crate::rng::PROBABILITY_SCALE,
    ensures
        pulled(position, i, target, threshold, s) == swapped(position, i, target),
{
}

/// Pulls `position` toward the particle's own best tour and the global best
/// tour. For each index in turn: with probability `cognitive` the entry is
/// exchanged with the entry at the index that `personal_best` holds there,
/// then with probability `social` with the entry at the index that
/// `global_best` holds there.
pub fn swap_toward_bests(
    position: &mut Vec<usize>,
    personal_best: &Vec<usize>,
    global_best: &Vec<usize>,
    cognitive: u64,
    social: u64,
    rng: &mut RandomSource,
)
    requires
        personal_best.len() == old(position).len(),
        global_best.len() == old(position).len(),
        in_catalog(personal_best@, old(position)@.len()),
        in_catalog(global_best@, old(position)@.len()),
    ensures
        final(position)@ == pulled_toward_bests(
            old(position)@,
            personal_best@,
            global_best@,
            cognitive,
            social,
            old(rng)@,
        ),
        final(rng)@ == advance(old(rng)@, (2 * old(position).len()) as nat),
        final(position).len() == old(position).len(),
        final(position)@.to_multiset() == old(position)@.to_multiset(),
        is_permutation(old(position)@) ==> is_permutation(final(position)@),
{
    let len = position.len();
    let mut i: usize = 0;
    while i < len
        invariant
            i <= len,
            position.len() == len,
            len == old(position).len(),
            personal_best.len() == len,
            global_best.len() == len,
            in_catalog(personal_best@, len as nat),
            in_catalog(global_best@, len as nat),
            position@ == pull_steps(
                old(position)@,
                personal_best@,
                global_best@,
                cognitive,
                social,
                old(rng)@,
                i as nat,
            ),
            rng@ == advance(old(rng)@, (2 * i) as nat),
        decreases len - i,
    {
        proof {
            lemma_advance_step(old(rng)@, (2 * i + 1) as nat);
        }
        if rng.probability() < cognitive {
            swap_entries(position, i, personal_best[i]);
        }
        if rng.probability() < social {
            swap_entries(position, i, global_best[i]);
        }
        i += 1;
    }
    proof {
        lemma_pull_steps_rearrange(
            old(position)@,
            personal_best@,
            global_best@,
            cognitive,
            social,
            old(rng)@,
            len as nat,
        );
    }
}

/// The tour and the generator state after one mutation trial started in
/// state `s`: one draw decides whether the trial succeeds; if it does, two
/// more draws pick the positions whose entries are exchanged.
pub open spec fn mutation_trial(position: Seq<usize>, rate: u64, s: u64) -> (Seq<usize>, u64) {
    if draw_probability(s) < rate {
        let first = next_state(s);
        let second = next_state(first);
        let i = draw_below(first, position.len() as u64);
        let j = draw_below(second, position.len() as u64);
        (swapped(position, i as int, j as int), next_state(second))
    } else {
        (position, next_state(s))
    }
}

/// The tour and the generator state after the two mutation trials.
pub open spec fn mutated(position: Seq<usize>, rate: u64, s: u64) -> (Seq<usize>, u64) {
    let (once, state) = mutation_trial(position, rate, s);
    mutation_trial(once, rate, state)
}

/// A mutation trial rearranges the tour by at most one swap.
pub proof fn lemma_mutation_trial_rearranges(position: Seq<usize>, rate: u64, s: u64)
    requires
        0 < position.len() <= u64::MAX,
    ensures
        mutation_trial(position, rate, s).0.len() == position.len(),
        mutation_trial(position, rate, s).0.to_multiset() == position.to_multiset(),
        is_permutation(position) ==> is_permutation(mutation_trial(position, rate, s).0),
{
    let first = next_state(s);
    let second = next_state(first);
    let i = draw_below(first, position.len() as u64);
    let j = draw_below(second, position.len() as u64);
    lemma_swap_keeps_permutation(position, i as int, j as int);
}

/// The two mutation trials rearrange the tour by at most two swaps.
pub proof fn lemma_mutated_rearranges(position: Seq<usize>, rate: u64, s: u64)
    requires
        0 < position.len() <= u64::MAX,
    ensures
        mutated(position, rate, s).0.len() == position.len(),
        mutated(position, rate, s).0.to_multiset() == position.to_multiset(),
        is_permutation(position) ==> is_permutation(mutated(position, rate, s).0),
{
    lemma_mutation_trial_rearranges(position, rate, s);
    let (once, state) = mutation_trial(position, rate, s);
    lemma_mutation_trial_rearranges(once, rate, state);
}

/// One mutation trial: with probability `mutation_rate`, exchanges the
/// entries at two random positions.
fn random_swap_trial(position: &mut Vec<usize>, mutation_rate: u64, rng: &mut RandomSource)
    requires
        old(position).len() > 0,
    ensures
        (final(position)@, final(rng)@) == mutation_trial(
            old(position)@,
            mutation_rate,
            old(rng)@,
        ),
        final(position).len() == old(position).len(),
{
    if rng.probability() < mutation_rate {
        let len = position.len();
        let index1 = rng.uniform_index(len);
        let index2 = rng.uniform_index(len);
        swap_entries(position, index1, index2);
    }
}

/// The mutation pass: two independent trials, each of which exchanges the
/// entries at two random positions with probability `mutation_rate`.
pub fn apply_mutation_and_gaussian(
    position: &mut Vec<usize>,
    mutation_rate: u64,
    rng: &mut RandomSource,
)
    requires
        old(position).len() > 0,
    ensures
        (final(position)@, final(rng)@) == mutated(old(position)@, mutation_rate, old(rng)@),
        final(position).len() == old(position).len(),
        final(position)@.to_multiset() == old(position)@.to_multiset(),
        is_permutation(old(position)@) ==> is_permutation(final(position)@),
{
    random_swap_trial(position, mutation_rate, rng);
    random_swap_trial(position, mutation_rate, rng);
    proof {
        lemma_mutated_rearranges(old(position)@, mutation_rate, old(rng)@);
    }
}

} // verus!
