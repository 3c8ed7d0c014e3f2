//! The swarm: its creation, and the move of one particle.

use vstd::prelude::*;
use crate::city::City;
use crate::config::Config;
use crate::cost::{calculate_cost, tour_cost};
use crate::error::TspError;
use crate::operators::{
    apply_mutation_and_gaussian, lemma_mutated_rearranges, lemma_pull_steps_rearrange, mutated,
    pulled_toward_bests, swap_toward_bests,
};
use crate::particle::{
    copy_route, inconsistency, is_tour, GlobalBest, GlobalBestView, Particle, ParticleView,
};
use crate::permutation::{lemma_shuffle_steps_rearrange, shuffle_vec, shuffled};
use crate::rng::{advance, lemma_advance_add, RandomSource};

verus! {

/// The mathematical value of a swarm: the values of its particles, in order.
pub open spec fn swarm_view(swarm: Seq<Particle>) -> Seq<ParticleView> {
    Seq::new(swarm.len(), |i: int| swarm[i]@)
}

/// Every particle of the swarm is consistent with the catalog `cities`.
pub open spec fn swarm_well_formed(swarm: Seq<ParticleView>, cities: Seq<City>) -> bool {
    forall|i: int| 0 <= i < swarm.len() ==> (#[trigger] swarm[i]).well_formed(cities)
}

/// The swarm of `n` particles created from generator state `s`: each
/// particle takes one draw for each city.
pub open spec fn initial_swarm(cities: Seq<City>, n: nat, s: u64) -> Seq<ParticleView> {
    Seq::new(n, |i: int| ParticleView::initial(cities, advance(s, (i * cities.len()) as nat)))
}

/// The tour that the particle `p` moves to, and the generator state after
/// the move. The move starts in state `s`: the tour is shuffled, pulled
/// toward the particle's own best tour and toward `global`, and mutated.
pub open spec fn moved_position(p: ParticleView, global: Seq<usize>, config: Config, s: u64) -> (
    Seq<usize>,
    u64,
) {
    let n = p.position.len();
    let explored = shuffled(p.position, s);
    let pulled = pulled_toward_bests(
        explored,
        p.best_position,
        global,
        config.cognitive_component,
        config.social_component,
        advance(s, n),
    );
    mutated(pulled, config.mutation_rate, advance(s, 3 * n))
}

impl ParticleView {
    /// The particle after it has moved to `position`: it takes the tour and
    /// its cost, and remembers the tour as its best if the tour is strictly
    /// cheaper than every tour it held before.
    pub open spec fn moved_to(self, position: Seq<usize>, cities: Seq<City>) -> ParticleView {
        let cost = tour_cost(position, cities);
        if cost < self.best_cost {
            ParticleView::fresh(position, cost)
        } else {
            ParticleView {
                position,
                best_position: self.best_position,
                best_cost: self.best_cost,
                cost,
            }
        }
    }
}

impl GlobalBestView {
    /// The global best after a particle has moved to `position`: the tour
    /// replaces the global best if it is strictly cheaper.
    pub open spec fn improved_by(self, position: Seq<usize>, cities: Seq<City>) -> GlobalBestView {
        let cost = tour_cost(position, cities);
        if cost < self.cost {
            GlobalBestView { position, cost }
        } else {
            self
        }
    }
}

/// A move leads a tour over the catalog to a tour over the catalog.
pub proof fn lemma_moved_position_is_tour(
    p: ParticleView,
    global: Seq<usize>,
    config: Config,
    s: u64,
    cities: Seq<City>,
)
    requires
        0 < cities.len() <= usize::MAX,
        is_tour(p.position, cities),
        is_tour(p.best_position, cities),
        is_tour(global, cities),
    ensures
        is_tour(moved_position(p, global, config, s).0, cities),
{
    let n = p.position.len();
    lemma_shuffle_steps_rearrange(p.position, s, n);
    let explored = shuffled(p.position, s);
    lemma_pull_steps_rearrange(
        explored,
        p.best_position,
        global,
        config.cognitive_component,
        config.social_component,
        advance(s, n),
        n,
    );
    let pulled = pulled_toward_bests(
        explored,
        p.best_position,
        global,
        config.cognitive_component,
        config.social_component,
        advance(s, n),
    );
    lemma_mutated_rearranges(pulled, config.mutation_rate, advance(s, 3 * n));
}

/// Creates a swarm of `num_particles` particles, each on a shuffled tour
/// over `cities`.
pub fn initialize_particles(cities: &[City], num_particles: usize, rng: &mut RandomSource) -> (swarm:
    Vec<Particle>)
    requires
        cities.len() >= 2,
    ensures
        swarm_view(swarm@) == initial_swarm(cities@, num_particles as nat, old(rng)@),
        swarm.len() == num_particles,
        swarm_well_formed(swarm_view(swarm@), cities@),
        final(rng)@ == advance(old(rng)@, (num_particles * cities.len()) as nat),
{
    let mut swarm: Vec<Particle> = Vec::with_capacity(num_particles);
    let mut i: usize = 0;
    while i < num_particles
        invariant
            i <= num_particles,
            cities.len() >= 2,
            swarm.len() == i,
            swarm_view(swarm@) == initial_swarm(cities@, i as nat, old(rng)@),
            swarm_well_formed(swarm_view(swarm@), cities@),
            rng@ == advance(old(rng)@, (i * cities.len()) as nat),
        decreases num_particles - i,
    {
        let ghost before = swarm@;
        let particle = Particle::initialize(cities, rng);
        swarm.push(particle);
        proof {
            lemma_advance_add(old(rng)@, (i * cities.len()) as nat, cities.len() as nat);
            assert((i + 1) * cities.len() == i * cities.len() + cities.len())
                by (nonlinear_arith);
            assert(swarm_view(swarm@) =~= swarm_view(before).push(particle@));
        }
        i += 1;
    }
    swarm
}

/// Tells whether every particle of the swarm is consistent with the catalog
/// `cities`.
pub fn check_swarm(swarm: &Vec<Particle>, cities: &[City]) -> (res: Result<(), TspError>)
    ensures
        res is Ok <==> cities.len() >= 2 && swarm_well_formed(swarm_view(swarm@), cities@),
        res matches Err(e) ==> e == inconsistency(cities@.len()),
{
    if cities.len() < 2 {
        return Err(TspError::InvalidInput);
    }
    let mut i: usize = 0;
    while i < swarm.len()
        invariant
            i <= swarm.len(),
            cities.len() >= 2,
            forall|a: int| 0 <= a < i ==> (#[trigger] swarm_view(swarm@)[a]).well_formed(cities@),
        decreases swarm.len() - i,
    {
        if swarm[i].check(cities).is_err() {
            assert(!swarm_view(swarm@)[i as int].well_formed(cities@));
            return Err(TspError::InternalInvariantViolation);
        }
        i += 1;
    }
    Ok(())
}

/// Moves one particle: shuffles its tour, pulls it toward the particle's own
/// best tour and the global best tour, mutates it, and evaluates it. The
/// particle and the global best each keep the new tour if it is strictly
/// cheaper than what they hold.
pub fn update_particle(
    particle: &mut Particle,
    global_best: &mut GlobalBest,
    cities: &[City],
    config: &Config,
    rng: &mut RandomSource,
)
    requires
        cities.len() >= 2,
        old(particle)@.well_formed(cities@),
        old(global_best)@.well_formed(cities@),
    ensures
        final(particle)@ == old(particle)@.moved_to(
            moved_position(old(particle)@, old(global_best)@.position, *config, old(rng)@).0,
            cities@,
        ),
        final(global_best)@ == old(global_best)@.improved_by(
            moved_position(old(particle)@, old(global_best)@.position, *config, old(rng)@).0,
            cities@,
        ),
        final(rng)@ == moved_position(
            old(particle)@,
            old(global_best)@.position,
            *config,
            old(rng)@,
        ).1,
        final(particle)@.well_formed(cities@),
        final(global_best)@.well_formed(cities@),
        final(global_best)@.cost <= old(global_best)@.cost,
        final(global_best)@.cost <= final(particle)@.cost,
{
    proof {
        let n = cities.len() as nat;
        lemma_advance_add(old(rng)@, n, 2 * n);
        lemma_moved_position_is_tour(
            old(particle)@,
            old(global_best)@.position,
            *config,
            old(rng)@,
            cities@,
        );
    }
    shuffle_vec(&mut particle.position, rng);
    swap_toward_bests(
        &mut particle.position,
        &particle.best_position,
        &global_best.position,
        config.cognitive_component,
        config.social_component,
        rng,
    );
    apply_mutation_and_gaussian(&mut particle.position, config.mutation_rate, rng);
    particle.cost = calculate_cost(particle.position.as_slice(), cities).unwrap();
    if particle.cost < particle.best_cost {
        particle.best_cost = particle.cost;
        particle.best_position = copy_route(&particle.position);
    }
    if particle.cost < global_best.cost {
        global_best.cost = particle.cost;
        global_best.position = copy_route(&particle.position);
    }
}

} // verus!
