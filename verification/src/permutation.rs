//! Tours as permutations of the city indices, the swap that every operator of
//! the optimiser is built from, and the random shuffle.

use vstd::prelude::*;
use vstd::set_lib::{lemma_int_range, lemma_subset_equality, set_int_range};
use crate::error::TspError;
use crate::rng::{advance, draw_below, RandomSource};

verus! {

/// `s` holds each index below its length exactly once: every entry names a
/// position, and no entry occurs twice.
pub open spec fn is_permutation(s: Seq<usize>) -> bool {
    &&& forall|i: int| 0 <= i < s.len() ==> (#[trigger] s[i]) < s.len()
    &&& forall|i: int, j: int| 0 <= i < j < s.len() ==> s[i] != s[j]
}

/// The tour that visits the cities in catalog order.
pub open spec fn identity(n: nat) -> Seq<usize> {
    Seq::new(n, |i: int| i as usize)
}

/// The identity tour is a permutation.
pub proof fn lemma_identity_is_permutation(n: nat)
    requires
        n <= usize::MAX,
    ensures
        identity(n).len() == n,
        is_permutation(identity(n)),
{
}

/// Pigeonhole: a sequence of different integers, each at least 0 and below
/// the length of the sequence, holds every such integer.
pub proof fn lemma_distinct_indices_cover(entries: Seq<int>, index: int)
    requires
        forall|i: int| 0 <= i < entries.len() ==> 0 <= #[trigger] entries[i] < entries.len(),
        forall|i: int, j: int| 0 <= i < j < entries.len() ==> entries[i] != entries[j],
        0 <= index < entries.len(),
    ensures
        entries.contains(index),
{
    let all = set_int_range(0, entries.len() as int);
    assert(entries.no_duplicates()) by {
        assert forall|i: int, j: int|
            0 <= i < entries.len() && 0 <= j < entries.len() && i != j implies entries[i]
            != entries[j] by {
            if i < j {
                assert(entries[i] != entries[j]);
            } else {
                assert(entries[j] != entries[i]);
            }
        }
    }
    entries.unique_seq_to_set();
    lemma_int_range(0, entries.len() as int);
    assert forall|x: int| entries.to_set().contains(x) implies all.contains(x) by {
        let i = choose|i: int| 0 <= i < entries.len() && entries[i] == x;
        assert(0 <= entries[i] < entries.len());
    }
    lemma_subset_equality(entries.to_set(), all);
    assert(all.contains(index));
}

/// A permutation misses no index: every index below its length occurs in it.
pub proof fn lemma_permutation_covers(s: Seq<usize>, index: usize)
    requires
        is_permutation(s),
        index < s.len(),
    ensures
        s.contains(index),
{
    let entries = s.map_values(|c: usize| c as int);
    assert forall|i: int, j: int| 0 <= i < j < entries.len() implies entries[i] != entries[j] by {
        assert(s[i] != s[j]);
    }
    lemma_distinct_indices_cover(entries, index as int);
    let at = choose|i: int| 0 <= i < entries.len() && entries[i] == index as int;
    assert(s[at] == index);
}

/// `s` with the entries at positions `i` and `j` exchanged.
pub open spec fn swapped(s: Seq<usize>, i: int, j: int) -> Seq<usize> {
    s.update(i, s[j]).update(j, s[i])
}

/// `v` after the first `k` steps of the shuffle started in generator state
/// `s`: step `i` exchanges position `i` with a position drawn from the whole
/// sequence.
pub open spec fn shuffle_steps(v: Seq<usize>, s: u64, k: nat) -> Seq<usize>
    decreases k,
{
    if k == 0 {
        v
    } else {
        let before = shuffle_steps(v, s, (k - 1) as nat);
        let target = draw_below(advance(s, (k - 1) as nat), v.len() as u64);
        swapped(before, k - 1, target as int)
    }
}

/// `v` after a full shuffle started in generator state `s`. The shuffle makes
/// one draw for each position.
pub open spec fn shuffled(v: Seq<usize>, s: u64) -> Seq<usize> {
    shuffle_steps(v, s, v.len())
}

/// A swap keeps the length and the entries, so it keeps a permutation a
/// permutation.
pub proof fn lemma_swap_keeps_permutation(s: Seq<usize>, i: int, j: int)
    requires
        0 <= i < s.len(),
        0 <= j < s.len(),
    ensures
        swapped(s, i, j).len() == s.len(),
        swapped(s, i, j).to_multiset() == s.to_multiset(),
        is_permutation(s) ==> is_permutation(swapped(s, i, j)),
{
    let t = swapped(s, i, j);
    if is_permutation(s) {
        assert forall|a: int, b: int| 0 <= a < b < t.len() implies t[a] != t[b] by {
            // the positions that the two entries came from
            let from_a = if a == i { j } else if a == j { i } else { a };
            let from_b = if b == i { j } else if b == j { i } else { b };
            assert(t[a] == s[from_a] && t[b] == s[from_b] && from_a != from_b);
        }
    }
    assert(t.to_multiset() =~= s.to_multiset()) by {
        broadcast use vstd::multiset::group_multiset_axioms;

        vstd::seq_lib::to_multiset_update(s, i, s[j]);
        vstd::seq_lib::to_multiset_update(s.update(i, s[j]), j, s[i]);
        vstd::seq_lib::to_multiset_contains(s, s[i]);
    }
}

/// The shuffle rearranges its sequence by swaps: the length and the entries
/// stay, and a permutation stays a permutation.
pub proof fn lemma_shuffle_steps_rearrange(v: Seq<usize>, s: u64, k: nat)
    requires
        k <= v.len() <= u64::MAX,
    ensures
        shuffle_steps(v, s, k).len() == v.len(),
        shuffle_steps(v, s, k).to_multiset() == v.to_multiset(),
        is_permutation(v) ==> is_permutation(shuffle_steps(v, s, k)),
    decreases k,
{
    if k > 0 {
        lemma_shuffle_steps_rearrange(v, s, (k - 1) as nat);
        let before = shuffle_steps(v, s, (k - 1) as nat);
        let target = draw_below(advance(s, (k - 1) as nat), v.len() as u64);
        lemma_swap_keeps_permutation(before, k - 1, target as int);
    }
}

/// Exchanges the entries at positions `i` and `j`.
pub fn swap_entries(v: &mut Vec<usize>, i: usize, j: usize)
    requires
        i < old(v).len(),
        j < old(v).len(),
    ensures
        final(v)@ == swapped(old(v)@, i as int, j as int),
{
    let a = v[i];
    let b = v[j];
    v[i] = b;
    v[j] = a;
}

/// Shuffles `vec` in place: for each position in turn, draws a position of
/// the whole sequence and exchanges the two.
pub fn shuffle_vec(vec: &mut Vec<usize>, rng: &mut RandomSource)
    ensures
        final(vec)@ == shuffled(old(vec)@, old(rng)@),
        final(rng)@ == advance(old(rng)@, old(vec).len() as nat),
        final(vec).len() == old(vec).len(),
        final(vec)@.to_multiset() == old(vec)@.to_multiset(),
        is_permutation(old(vec)@) ==> is_permutation(final(vec)@),
{
    let len = vec.len();
    let mut i: usize = 0;
    while i < len
        invariant
            i <= len,
            vec.len() == len,
            len == old(vec).len(),
            vec@ == shuffle_steps(old(vec)@, old(rng)@, i as nat),
            rng@ == advance(old(rng)@, i as nat),
        decreases len - i,
    {
        let j = rng.uniform_index(len);
        swap_entries(vec, i, j);
        i += 1;
    }
    proof {
        lemma_shuffle_steps_rearrange(old(vec)@, old(rng)@, len as nat);
    }
}

/// The tour that visits the `n` cities in catalog order.
pub fn identity_permutation(n: usize) -> (v: Vec<usize>)
    ensures
        v@ == identity(n as nat),
        is_permutation(v@),
{
    let mut v: Vec<usize> = Vec::with_capacity(n);
    let mut i: usize = 0;
    while i < n
        invariant
            i <= n,
            v@ == identity(i as nat),
        decreases n - i,
    {
        v.push(i);
        i += 1;
    }
    v
}

/// Tells whether `route` is a permutation of the indices below its length.
pub fn check_permutation(route: &[usize]) -> (res: Result<(), TspError>)
    ensures
        res is Ok <==> is_permutation(route@),
        res is Err ==> res == Err::<(), TspError>(TspError::InternalInvariantViolation),
{
    let n = route.len();
    let mut seen: Vec<bool> = Vec::with_capacity(n);
    let mut k: usize = 0;
    while k < n
        invariant
            k <= n,
            seen.len() == k,
            forall|c: int| 0 <= c < k ==> !seen[c],
        decreases n - k,
    {
        seen.push(false);
        k += 1;
    }
    let mut i: usize = 0;
    while i < n
        invariant
            i <= n,
            n == route.len(),
            seen.len() == n,
            forall|a: int| 0 <= a < i ==> (#[trigger] route[a]) < n,
            forall|a: int, b: int| 0 <= a < b < i ==> route[a] != route[b],
            forall|c: int| 0 <= c < n ==> (seen[c] <==> exists|a: int| 0 <= a < i && route[a] == c),
        decreases n - i,
    {
        let city = route[i];
        if city >= n || seen[city] {
            return Err(TspError::InternalInvariantViolation);
        }
        seen[city] = true;
        assert forall|c: int| 0 <= c < n implies (seen[c] <==> exists|a: int|
            0 <= a < i + 1 && route[a] == c) by {
            if c == city {
                assert(route[i as int] == c);
            }
        }
        i += 1;
    }
    Ok(())
}

} // verus!
