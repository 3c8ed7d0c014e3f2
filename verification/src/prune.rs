//! Prune and restart: the swarm is sorted by cost, and its most expensive
//! particles are replaced by fresh ones.

use vstd::prelude::*;
use crate::city::City;
use crate::config::MAX_PERCENTAGE;
use crate::particle::{Particle, ParticleView};
use crate::permutation::lemma_distinct_indices_cover;
use crate::rng::{advance, lemma_advance_add, RandomSource};
use crate::swarm::{swarm_view, swarm_well_formed};

verus! {

/// The costs of the particles of a swarm, in order.
pub open spec fn costs_of(swarm: Seq<ParticleView>) -> Seq<nat> {
    Seq::new(swarm.len(), |i: int| swarm[i].cost)
}

/// The place at which a particle of cost `cost` enters the arrangement
/// `order`, looking down from place `j`: just above the highest place below
/// `j` whose particle costs no more than `cost`.
pub open spec fn insertion_point(costs: Seq<nat>, order: Seq<int>, cost: nat, j: nat) -> nat
    decreases j,
{
    if j == 0 || costs[order[j - 1]] <= cost {
        j
    } else {
        insertion_point(costs, order, cost, (j - 1) as nat)
    }
}

/// The arrangement of the first `k` indices by ascending cost, equal costs
/// in ascending order of index: entry `a` is the index of the particle that
/// stands at place `a`. Each index in turn enters the arrangement of the
/// indices before it.
pub open spec fn stable_order(costs: Seq<nat>, k: nat) -> Seq<int>
    decreases k,
{
    if k == 0 {
        Seq::empty()
    } else {
        let before = stable_order(costs, (k - 1) as nat);
        let place = insertion_point(costs, before, costs[k - 1], before.len());
        before.insert(place as int, k - 1)
    }
}

/// The elements of `s` in the arrangement `order`.
pub open spec fn arranged<T>(s: Seq<T>, order: Seq<int>) -> Seq<T> {
    Seq::new(order.len(), |a: int| s[order[a]])
}

/// The swarm sorted by ascending cost, particles of equal cost in the order
/// they stood in.
pub open spec fn sorted_by_cost(swarm: Seq<ParticleView>) -> Seq<ParticleView> {
    arranged(swarm, stable_order(costs_of(swarm), swarm.len()))
}

/// `order` arranges the indices below its length by ascending cost, and
/// indices of equal cost in ascending order.
pub open spec fn is_stable_order(costs: Seq<nat>, order: Seq<int>) -> bool {
    &&& forall|a: int| 0 <= a < order.len() ==> 0 <= #[trigger] order[a] < order.len()
    &&& forall|a: int, b: int| 0 <= a < b < order.len() ==> order[a] != order[b]
    &&& forall|a: int, b: int|
        0 <= a < b < order.len() ==> costs[order[a]] <= costs[order[b]]
    &&& forall|a: int, b: int|
        0 <= a < b < order.len() && costs[order[a]] == costs[order[b]] ==> order[a] < order[b]
}

/// The insertion point lies at or below the place the search starts from;
/// every place from it up to the start holds a particle that costs more, and
/// the place below it, if there is one, a particle that costs no more.
pub proof fn lemma_insertion_point(costs: Seq<nat>, order: Seq<int>, cost: nat, j: nat)
    requires
        j <= order.len(),
    ensures
        insertion_point(costs, order, cost, j) <= j,
        forall|a: int|
            insertion_point(costs, order, cost, j) <= a < j ==> costs[#[trigger] order[a]] > cost,
        insertion_point(costs, order, cost, j) > 0 ==> costs[order[insertion_point(
            costs,
            order,
            cost,
            j,
        ) - 1]] <= cost,
    decreases j,
{
    if j > 0 && costs[order[j - 1]] > cost {
        lemma_insertion_point(costs, order, cost, (j - 1) as nat);
    }
}

/// `stable_order` is a stable sort: it holds each of the first `k` indices
/// once, costs ascend along it, and indices of equal cost keep their order.
pub proof fn lemma_stable_order(costs: Seq<nat>, k: nat)
    requires
        k <= costs.len(),
    ensures
        stable_order(costs, k).len() == k,
        is_stable_order(costs, stable_order(costs, k)),
    decreases k,
{
    if k > 0 {
        lemma_stable_order(costs, (k - 1) as nat);
        let before = stable_order(costs, (k - 1) as nat);
        lemma_insertion_point(costs, before, costs[k - 1], before.len());
    }
}

/// The index `u` stands before the index `v` in a stable sort: it costs
/// less, or it costs the same and is the smaller index.
pub open spec fn precedes(costs: Seq<nat>, u: int, v: int) -> bool {
    costs[u] < costs[v] || (costs[u] == costs[v] && u < v)
}

/// Two arrangements of the same indices in which every index stands before
/// all that it precedes are one arrangement.
proof fn lemma_sorted_arrangements_agree(costs: Seq<nat>, x: Seq<int>, y: Seq<int>)
    requires
        x.len() == y.len(),
        forall|a: int, b: int| 0 <= a < b < x.len() ==> precedes(costs, x[a], x[b]),
        forall|a: int, b: int| 0 <= a < b < y.len() ==> precedes(costs, y[a], y[b]),
        forall|a: int| 0 <= a < x.len() ==> y.contains(#[trigger] x[a]),
        forall|a: int| 0 <= a < y.len() ==> x.contains(#[trigger] y[a]),
    ensures
        x == y,
    decreases x.len(),
{
    if x.len() > 0 {
        let last = x.len() - 1;
        // The last index of each arrangement is preceded by every other: it is the same.
        assert(x[last] == y[last]) by {
            assert(y.contains(x[last]));
            assert(x.contains(y[last]));
            let in_y = choose|a: int| 0 <= a < y.len() && y[a] == x[last];
            let in_x = choose|a: int| 0 <= a < x.len() && x[a] == y[last];
            if in_y < last {
                assert(precedes(costs, y[in_y], y[last]));
                if in_x < last {
                    assert(precedes(costs, x[in_x], x[last]));
                }
            }
        }
        let x_rest = x.drop_last();
        let y_rest = y.drop_last();
        assert forall|a: int| 0 <= a < x_rest.len() implies y_rest.contains(#[trigger] x_rest[a]) by {
            assert(y.contains(x[a]));
            let at = choose|b: int| 0 <= b < y.len() && y[b] == x[a];
            assert(precedes(costs, x[a], x[last]));
            assert(y_rest[at] == x_rest[a]);
        }
        assert forall|a: int| 0 <= a < y_rest.len() implies x_rest.contains(#[trigger] y_rest[a]) by {
            assert(x.contains(y[a]));
            let at = choose|b: int| 0 <= b < x.len() && x[b] == y[a];
            assert(precedes(costs, y[a], y[last]));
            assert(x_rest[at] == y_rest[a]);
        }
        assert forall|a: int, b: int| 0 <= a < b < x_rest.len() implies precedes(
            costs,
            x_rest[a],
            x_rest[b],
        ) by {
            assert(precedes(costs, x[a], x[b]));
        }
        assert forall|a: int, b: int| 0 <= a < b < y_rest.len() implies precedes(
            costs,
            y_rest[a],
            y_rest[b],
        ) by {
            assert(precedes(costs, y[a], y[b]));
        }
        lemma_sorted_arrangements_agree(costs, x_rest, y_rest);
        assert(x =~= x_rest.push(x[last]));
        assert(y =~= y_rest.push(y[last]));
    }
}

/// There is one stable sort only: every arrangement of the first indices by
/// ascending cost that keeps indices of equal cost in order is
/// `stable_order`.
pub proof fn lemma_stable_order_unique(costs: Seq<nat>, order: Seq<int>)
    requires
        order.len() <= costs.len(),
        is_stable_order(costs, order),
    ensures
        order == stable_order(costs, order.len()),
{
    let standard = stable_order(costs, order.len());
    lemma_stable_order(costs, order.len());
    assert forall|a: int| 0 <= a < order.len() implies standard.contains(#[trigger] order[a]) by {
        lemma_distinct_indices_cover(standard, order[a]);
    }
    assert forall|a: int| 0 <= a < standard.len() implies order.contains(
        #[trigger] standard[a],
    ) by {
        lemma_distinct_indices_cover(order, standard[a]);
    }
    lemma_sorted_arrangements_agree(costs, order, standard);
}

/// Sorts the swarm by ascending cost. Particles of equal cost keep their
/// order.
pub fn sort_by_cost(swarm: &mut Vec<Particle>)
    ensures
        final(swarm)@ == arranged(
            old(swarm)@,
            stable_order(costs_of(swarm_view(old(swarm)@)), old(swarm)@.len()),
        ),
        swarm_view(final(swarm)@) == sorted_by_cost(swarm_view(old(swarm)@)),
        final(swarm).len() == old(swarm).len(),
{
    let n = swarm.len();
    let ghost costs = costs_of(swarm_view(old(swarm)@));
    let mut i: usize = 0;
    while i < n
        invariant
            i <= n,
            n == old(swarm).len(),
            swarm.len() == n,
            costs == costs_of(swarm_view(old(swarm)@)),
            stable_order(costs, i as nat).len() == i,
            forall|a: int|
                0 <= a < i ==> #[trigger] swarm@[a] == old(swarm)@[stable_order(costs, i as nat)[a]],
            forall|a: int| i <= a < n ==> #[trigger] swarm@[a] == old(swarm)@[a],
        decreases n - i,
    {
        let ghost order = stable_order(costs, i as nat);
        let ghost before = swarm@;
        proof {
            lemma_stable_order(costs, i as nat);
        }
        let key = swarm[i].cost;
        let mut j: usize = i;
        while j > 0 && swarm[j - 1].cost > key
            invariant
                j <= i < n,
                swarm.len() == n,
                swarm@ == before,
                order.len() == i,
                key == costs[i as int],
                is_stable_order(costs, order),
                forall|a: int| 0 <= a < i ==> #[trigger] before[a] == old(swarm)@[order[a]],
                costs == costs_of(swarm_view(old(swarm)@)),
                n == old(swarm).len(),
                insertion_point(costs, order, key as nat, i as nat) == insertion_point(
                    costs,
                    order,
                    key as nat,
                    j as nat,
                ),
            decreases j,
        {
            j -= 1;
        }
        let particle = swarm.remove(i);
        swarm.insert(j, particle);
        i += 1;
    }
    proof {
        lemma_stable_order(costs, n as nat);
    }
}

/// The number of particles that a prune of `n` particles restarts.
pub open spec fn prune_count(n: nat, percentage: nat) -> nat {
    n * percentage / 100
}

/// The swarm after prune and restart, started in generator state `s`: the
/// swarm is sorted by cost; the last `prune_count` particles are replaced,
/// from the last one down, by particles created one after the other; the
/// others stay as the sort left them.
pub open spec fn pruned(swarm: Seq<ParticleView>, cities: Seq<City>, percentage: nat, s: u64) -> Seq<
    ParticleView,
> {
    let sorted = sorted_by_cost(swarm);
    let kept = swarm.len() - prune_count(swarm.len(), percentage);
    Seq::new(
        swarm.len(),
        |i: int|
            if i < kept {
                sorted[i]
            } else {
                ParticleView::initial(
                    cities,
                    advance(s, ((swarm.len() - 1 - i) * cities.len()) as nat),
                )
            },
    )
}

/// A prune restarts no more particles than the swarm has.
pub proof fn lemma_prune_count_bound(n: nat, percentage: nat)
    requires
        percentage <= 100,
    ensures
        prune_count(n, percentage) <= n,
{
    assert(n * percentage <= n * 100) by (nonlinear_arith)
        requires
            percentage <= 100,
    ;
}

/// Computes `prune_count`.
pub fn count_pruned(num_particles: usize, prune_percentage: usize) -> (count: usize)
    requires
        prune_percentage <= MAX_PERCENTAGE,
    ensures
        count == prune_count(num_particles as nat, prune_percentage as nat),
        count <= num_particles,
{
    proof {
        lemma_prune_count_bound(num_particles as nat, prune_percentage as nat);
        assert(num_particles * prune_percentage <= usize::MAX * 100) by (nonlinear_arith)
            requires
                prune_percentage <= 100,
                num_particles <= usize::MAX,
        ;
    }
    let product: u128 = num_particles as u128 * prune_percentage as u128;
    (product / 100) as usize
}

/// Sorts the swarm by ascending cost and replaces the `prune_count`
/// particles of highest cost by fresh particles on shuffled tours, which
/// start without history.
pub fn prune_particles(
    swarm: &mut Vec<Particle>,
    cities: &[City],
    prune_percentage: usize,
    rng: &mut RandomSource,
)
    requires
        cities.len() >= 2,
        prune_percentage <= MAX_PERCENTAGE,
    ensures
        swarm_view(final(swarm)@) == pruned(
            swarm_view(old(swarm)@),
            cities@,
            prune_percentage as nat,
            old(rng)@,
        ),
        final(swarm).len() == old(swarm).len(),
        final(rng)@ == advance(
            old(rng)@,
            (prune_count(old(swarm).len() as nat, prune_percentage as nat) * cities.len()) as nat,
        ),
        forall|i: int|
            0 <= i < old(swarm).len() - prune_count(
                old(swarm).len() as nat,
                prune_percentage as nat,
            ) ==> #[trigger] final(swarm)@[i] == arranged(
                old(swarm)@,
                stable_order(costs_of(swarm_view(old(swarm)@)), old(swarm)@.len()),
            )[i],
        forall|i: int|
            old(swarm).len() - prune_count(old(swarm).len() as nat, prune_percentage as nat) <= i
                < old(swarm).len() ==> (#[trigger] final(swarm)@[i])@ == ParticleView::initial(
                cities@,
                advance(old(rng)@, ((old(swarm).len() - 1 - i) * cities.len()) as nat),
            ),
        swarm_well_formed(swarm_view(old(swarm)@), cities@) ==> swarm_well_formed(
            swarm_view(final(swarm)@),
            cities@,
        ),
{
    sort_by_cost(swarm);
    let n = swarm.len();
    let count = count_pruned(n, prune_percentage);
    let ghost sorted = swarm@;
    let ghost target = pruned(swarm_view(old(swarm)@), cities@, prune_percentage as nat, old(rng)@);
    let mut k: usize = 0;
    while k < count
        invariant
            k <= count <= n,
            cities.len() >= 2,
            swarm.len() == n,
            n == old(swarm).len(),
            count == prune_count(n as nat, prune_percentage as nat),
            swarm_view(sorted) == sorted_by_cost(swarm_view(old(swarm)@)),
            target == pruned(swarm_view(old(swarm)@), cities@, prune_percentage as nat, old(rng)@),
            forall|i: int| 0 <= i < n - k ==> swarm@[i] == sorted[i],
            forall|i: int| n - k <= i < n ==> (#[trigger] swarm@[i])@ == target[i],
            forall|i: int| n - k <= i < n ==> (#[trigger] swarm@[i])@.well_formed(cities@),
            rng@ == advance(old(rng)@, (k * cities.len()) as nat),
        decreases count - k,
    {
        let index = n - 1 - k;
        let fresh = Particle::initialize(cities, rng);
        swarm[index] = fresh;
        proof {
            lemma_advance_add(old(rng)@, (k * cities.len()) as nat, cities.len() as nat);
            assert((k + 1) * cities.len() == k * cities.len() + cities.len())
                by (nonlinear_arith);
        }
        k += 1;
    }
    proof {
        lemma_stable_order(costs_of(swarm_view(old(swarm)@)), n as nat);
        assert(swarm_view(swarm@) =~= target);
    }
}

} // verus!
