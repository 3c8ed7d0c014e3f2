//! The optimisation loop: one iteration moves every particle in turn and
//! then prunes the swarm; a run is a fixed number of iterations.

use vstd::prelude::*;
use crate::city::City;
use crate::config::{Config, MAX_PERCENTAGE};
use crate::error::TspError;
use crate::particle::{
    lemma_initial_well_formed, GlobalBest, GlobalBestView, Particle, ParticleView,
};
use crate::prune::{costs_of, lemma_stable_order, prune_count, prune_particles, pruned};
use crate::rng::{advance, RandomSource};
use crate::swarm::{
    initial_swarm, initialize_particles, lemma_moved_position_is_tour, moved_position, swarm_view,
    swarm_well_formed, update_particle,
};

verus! {

/// Everything that a run carries from one step to the next: the swarm, the
/// global best and the state of the generator.
pub struct SwarmState {
    pub swarm: Seq<ParticleView>,
    pub global_best: GlobalBestView,
    pub rng: u64,
}

impl SwarmState {
    /// The state that the three values of a run stand for.
    pub open spec fn of(swarm: Seq<Particle>, global_best: GlobalBest, rng: RandomSource) -> SwarmState {
        SwarmState { swarm: swarm_view(swarm), global_best: global_best@, rng: rng@ }
    }

    /// Every particle and the global best are consistent with the catalog.
    pub open spec fn well_formed(self, cities: Seq<City>) -> bool {
        &&& swarm_well_formed(self.swarm, cities)
        &&& self.global_best.well_formed(cities)
    }
}

/// The state after the first `k` particles have moved, in order. Each
/// particle is pulled toward the global best as the particles before it
/// have left it.
pub open spec fn update_steps(st: SwarmState, cities: Seq<City>, config: Config, k: nat) -> SwarmState
    decreases k,
{
    if k == 0 {
        st
    } else {
        let before = update_steps(st, cities, config, (k - 1) as nat);
        let p = before.swarm[k - 1];
        let (position, rng) = moved_position(p, before.global_best.position, config, before.rng);
        SwarmState {
            swarm: before.swarm.update(k - 1, p.moved_to(position, cities)),
            global_best: before.global_best.improved_by(position, cities),
            rng,
        }
    }
}

/// The state after one iteration: every particle moves, then the swarm is
/// pruned. The prune leaves the global best as it is.
pub open spec fn iteration(st: SwarmState, cities: Seq<City>, config: Config) -> SwarmState {
    let moved = update_steps(st, cities, config, st.swarm.len());
    let restarted = prune_count(moved.swarm.len(), config.prune_percentage as nat);
    SwarmState {
        swarm: pruned(moved.swarm, cities, config.prune_percentage as nat, moved.rng),
        global_best: moved.global_best,
        rng: advance(moved.rng, (restarted * cities.len()) as nat),
    }
}

/// The state after `k` iterations.
pub open spec fn iterate(st: SwarmState, cities: Seq<City>, config: Config, k: nat) -> SwarmState
    decreases k,
{
    if k == 0 {
        st
    } else {
        iteration(iterate(st, cities, config, (k - 1) as nat), cities, config)
    }
}

/// The state a run starts from when the generator is in state `s`: a fresh
/// swarm, and the best tour of its first particle as the global best.
pub open spec fn initial_state(cities: Seq<City>, config: Config, s: u64) -> SwarmState {
    let swarm = initial_swarm(cities, config.num_particles as nat, s);
    SwarmState {
        swarm,
        global_best: GlobalBestView::of(swarm[0]),
        rng: advance(s, (config.num_particles * cities.len()) as nat),
    }
}

/// The state of a run after `k` iterations.
pub open spec fn run_state(cities: Seq<City>, config: Config, s: u64, k: nat) -> SwarmState {
    iterate(initial_state(cities, config, s), cities, config, k)
}

/// The state a run ends in: `max_iterations` iterations after its start.
pub open spec fn optimized(cities: Seq<City>, config: Config, s: u64) -> SwarmState {
    run_state(cities, config, s, config.max_iterations as nat)
}

/// Moving particles keeps the state consistent with the catalog and the
/// size of the swarm, and never raises the cost of the global best.
pub proof fn lemma_update_steps(st: SwarmState, cities: Seq<City>, config: Config, k: nat)
    requires
        0 < cities.len() <= usize::MAX,
        st.well_formed(cities),
        k <= st.swarm.len(),
    ensures
        update_steps(st, cities, config, k).well_formed(cities),
        update_steps(st, cities, config, k).swarm.len() == st.swarm.len(),
        update_steps(st, cities, config, k).global_best.cost <= st.global_best.cost,
    decreases k,
{
    if k > 0 {
        lemma_update_steps(st, cities, config, (k - 1) as nat);
        let before = update_steps(st, cities, config, (k - 1) as nat);
        lemma_moved_position_is_tour(
            before.swarm[k - 1],
            before.global_best.position,
            config,
            before.rng,
            cities,
        );
    }
}

/// A prune keeps a swarm consistent with the catalog, and its size.
pub proof fn lemma_pruned_well_formed(
    swarm: Seq<ParticleView>,
    cities: Seq<City>,
    percentage: nat,
    s: u64,
)
    requires
        cities.len() <= usize::MAX,
        percentage <= 100,
        swarm_well_formed(swarm, cities),
    ensures
        pruned(swarm, cities, percentage, s).len() == swarm.len(),
        swarm_well_formed(pruned(swarm, cities, percentage, s), cities),
{
    let n = swarm.len();
    let after = pruned(swarm, cities, percentage, s);
    lemma_stable_order(costs_of(swarm), n);
    assert forall|i: int| 0 <= i < n implies (#[trigger] after[i]).well_formed(cities) by {
        lemma_initial_well_formed(cities, advance(s, ((n - 1 - i) * cities.len()) as nat));
    }
}

/// An iteration keeps the state consistent with the catalog and the size
/// of the swarm, and never raises the cost of the global best.
pub proof fn lemma_iteration(st: SwarmState, cities: Seq<City>, config: Config)
    requires
        0 < cities.len() <= usize::MAX,
        config.prune_percentage <= MAX_PERCENTAGE,
        st.well_formed(cities),
    ensures
        iteration(st, cities, config).well_formed(cities),
        iteration(st, cities, config).swarm.len() == st.swarm.len(),
        iteration(st, cities, config).global_best.cost <= st.global_best.cost,
{
    lemma_update_steps(st, cities, config, st.swarm.len());
    let moved = update_steps(st, cities, config, st.swarm.len());
    lemma_pruned_well_formed(moved.swarm, cities, config.prune_percentage as nat, moved.rng);
}

/// At every iteration boundary, the tour and the best tour of every
/// particle, and the global best tour, are permutations of the city
/// indices, every cost is the cost of its tour, and the swarm has the size
/// it started with.
pub proof fn lemma_iterate_well_formed(st: SwarmState, cities: Seq<City>, config: Config, k: nat)
    requires
        0 < cities.len() <= usize::MAX,
        config.prune_percentage <= MAX_PERCENTAGE,
        st.well_formed(cities),
    ensures
        iterate(st, cities, config, k).well_formed(cities),
        iterate(st, cities, config, k).swarm.len() == st.swarm.len(),
    decreases k,
{
    if k > 0 {
        lemma_iterate_well_formed(st, cities, config, (k - 1) as nat);
        lemma_iteration(iterate(st, cities, config, (k - 1) as nat), cities, config);
    }
}

/// The cost of the global best never rises: after more iterations it is at
/// most what it was after fewer.
pub proof fn lemma_global_best_monotonic(
    st: SwarmState,
    cities: Seq<City>,
    config: Config,
    earlier: nat,
    later: nat,
)
    requires
        0 < cities.len() <= usize::MAX,
        config.prune_percentage <= MAX_PERCENTAGE,
        st.well_formed(cities),
        earlier <= later,
    ensures
        iterate(st, cities, config, later).global_best.cost <= iterate(
            st,
            cities,
            config,
            earlier,
        ).global_best.cost,
    decreases later,
{
    if earlier < later {
        lemma_global_best_monotonic(st, cities, config, earlier, (later - 1) as nat);
        lemma_iterate_well_formed(st, cities, config, (later - 1) as nat);
        lemma_iteration(iterate(st, cities, config, (later - 1) as nat), cities, config);
    }
}

/// A run starts in a state that is consistent with the catalog.
pub proof fn lemma_initial_state_well_formed(cities: Seq<City>, config: Config, s: u64)
    requires
        cities.len() <= usize::MAX,
        config.num_particles >= 1,
    ensures
        initial_state(cities, config, s).well_formed(cities),
        initial_state(cities, config, s).swarm.len() == config.num_particles,
{
    let swarm = initial_swarm(cities, config.num_particles as nat, s);
    assert forall|i: int| 0 <= i < swarm.len() implies (#[trigger] swarm[i]).well_formed(cities) by {
        lemma_initial_well_formed(cities, advance(s, (i * cities.len()) as nat));
    }
}

/// Throughout a run with a valid configuration, after any number of
/// iterations: every tour of every particle and the global best tour are
/// permutations of the city indices, every cost is the cost of its tour,
/// the swarm has `num_particles` particles, and the cost of the global best
/// is at most what it was after any smaller number of iterations.
pub proof fn lemma_run_invariants(
    cities: Seq<City>,
    config: Config,
    s: u64,
    earlier: nat,
    later: nat,
)
    requires
        cities.len() <= usize::MAX,
        cities.len() == config.num_cities,
        config.valid(),
        earlier <= later,
    ensures
        run_state(cities, config, s, later).well_formed(cities),
        run_state(cities, config, s, later).swarm.len() == config.num_particles,
        run_state(cities, config, s, later).global_best.cost <= run_state(
            cities,
            config,
            s,
            earlier,
        ).global_best.cost,
{
    let start = initial_state(cities, config, s);
    lemma_initial_state_well_formed(cities, config, s);
    lemma_iterate_well_formed(start, cities, config, later);
    lemma_global_best_monotonic(start, cities, config, earlier, later);
}

/// A run is a function of the catalog, the configuration and the seed: two
/// runs that agree on the three pass through the same state after every
/// iteration, with the same tours, costs, global best and generator state.
pub proof fn lemma_runs_agree(
    cities_a: Seq<City>,
    config_a: Config,
    seed_a: u64,
    cities_b: Seq<City>,
    config_b: Config,
    seed_b: u64,
    k: nat,
)
    requires
        cities_a == cities_b,
        config_a == config_b,
        seed_a == seed_b,
    ensures
        run_state(cities_a, config_a, seed_a, k) == run_state(cities_b, config_b, seed_b, k),
{
}

/// One iteration: moves every particle in turn, each against the global
/// best as the particles before it have left it, then prunes the swarm.
pub fn update_particles(
    swarm: &mut Vec<Particle>,
    global_best: &mut GlobalBest,
    cities: &[City],
    config: &Config,
    rng: &mut RandomSource,
)
    requires
        cities.len() >= 2,
        config.prune_percentage <= MAX_PERCENTAGE,
        swarm_well_formed(swarm_view(old(swarm)@), cities@),
        old(global_best)@.well_formed(cities@),
    ensures
        SwarmState::of(final(swarm)@, *final(global_best), *final(rng)) == iteration(
            SwarmState::of(old(swarm)@, *old(global_best), *old(rng)),
            cities@,
            *config,
        ),
        final(swarm).len() == old(swarm).len(),
        swarm_well_formed(swarm_view(final(swarm)@), cities@),
        final(global_best)@.well_formed(cities@),
        final(global_best)@.cost <= old(global_best)@.cost,
{
    let ghost start = SwarmState::of(old(swarm)@, *old(global_best), *old(rng));
    let n = swarm.len();
    let mut i: usize = 0;
    while i < n
        invariant
            i <= n,
            swarm.len() == n,
            n == old(swarm).len(),
            cities.len() >= 2,
            start.swarm.len() == n,
            SwarmState::of(swarm@, *global_best, *rng) == update_steps(
                start,
                cities@,
                *config,
                i as nat,
            ),
            swarm_well_formed(swarm_view(swarm@), cities@),
            global_best@.well_formed(cities@),
            global_best@.cost <= start.global_best.cost,
        decreases n - i,
    {
        let ghost before = swarm@;
        assert(swarm_view(before)[i as int].well_formed(cities@));
        update_particle(&mut swarm[i], global_best, cities, config, rng);
        assert(swarm_view(swarm@) =~= swarm_view(before).update(i as int, swarm@[i as int]@));
        i += 1;
    }
    prune_particles(swarm, cities, config.prune_percentage, rng);
}

/// Runs the optimiser on `cities`: creates the swarm, takes the best tour
/// of its first particle as the global best, runs `max_iterations`
/// iterations, and returns the global best. The run is refused before any
/// work if the configuration is not valid or does not name the size of the
/// catalog.
pub fn optimize(cities: &[City], config: &Config, rng: &mut RandomSource) -> (res: Result<
    GlobalBest,
    TspError,
>)
    ensures
        res is Err <==> !config.valid() || cities.len() != config.num_cities,
        res matches Err(e) ==> e == TspError::InvalidInput && final(rng)@ == old(rng)@,
        res matches Ok(best) ==> {
            &&& best@ == optimized(cities@, *config, old(rng)@).global_best
            &&& final(rng)@ == optimized(cities@, *config, old(rng)@).rng
            &&& best@.well_formed(cities@)
            &&& best@.cost <= initial_state(cities@, *config, old(rng)@).global_best.cost
        },
{
    if config.validate().is_err() || cities.len() != config.num_cities {
        return Err(TspError::InvalidInput);
    }
    let mut swarm = initialize_particles(cities, config.num_particles, rng);
    let mut global_best = GlobalBest::from_particle(&swarm[0]);
    assert(swarm_view(swarm@)[0].well_formed(cities@));
    let mut round: usize = 0;
    while round < config.max_iterations
        invariant
            round <= config.max_iterations,
            cities.len() >= 2,
            config.prune_percentage <= MAX_PERCENTAGE,
            SwarmState::of(swarm@, global_best, *rng) == run_state(
                cities@,
                *config,
                old(rng)@,
                round as nat,
            ),
            swarm_well_formed(swarm_view(swarm@), cities@),
            global_best@.well_formed(cities@),
        decreases config.max_iterations - round,
    {
        update_particles(&mut swarm, &mut global_best, cities, config, rng);
        round += 1;
    }
    proof {
        lemma_run_invariants(cities@, *config, old(rng)@, 0, config.max_iterations as nat);
    }
    Ok(global_best)
}

} // verus!
