//! The tunable values of a run.

use vstd::prelude::*;
use crate::error::TspError;
use crate::rng::PROBABILITY_SCALE;

verus! {

/// The largest meaningful `prune_percentage`.
pub const MAX_PERCENTAGE: usize = 100;

/// The configuration of a run. Weights, thresholds and rates are
/// probabilities in millionths (see `PROBABILITY_SCALE`).
#[derive(Clone, Copy, Debug)]
pub struct Config {
    /// The number of cities of the catalog.
    pub num_cities: usize,
    /// The number of particles of the swarm.
    pub num_particles: usize,
    /// The number of iterations of a run.
    pub max_iterations: usize,
    /// First value of the inertia schedule. No operator reads it.
    pub initial_inertia_weight: u64,
    /// Last value of the inertia schedule. No operator reads it.
    pub final_inertia_weight: u64,
    /// Threshold of the swap toward the particle's own best tour. A drawn
    /// probability is always below `PROBABILITY_SCALE`, so a threshold of
    /// `PROBABILITY_SCALE` or more makes the swap unconditional; the
    /// threshold is compared as it is and never clamped.
    pub cognitive_component: u64,
    /// Threshold of the swap toward the global best tour; compared as
    /// `cognitive_component` is.
    pub social_component: u64,
    /// Probability of each of the two mutation trials, at most
    /// `PROBABILITY_SCALE`.
    pub mutation_rate: u64,
    /// Share of the swarm restarted after each iteration, in percent.
    pub prune_percentage: usize,
}

impl Config {
    /// Every value lies in its domain: there are at least two cities and one
    /// particle, the mutation rate is a probability and the prune percentage
    /// a percentage.
    pub open spec fn valid(self) -> bool {
        &&& self.num_cities >= 2
        &&& self.num_particles >= 1
        &&& self.mutation_rate <= PROBABILITY_SCALE
        &&& self.prune_percentage <= MAX_PERCENTAGE
    }

    /// Accepts the configuration if every value lies in its domain.
    pub fn validate(&self) -> (res: Result<(), TspError>)
        ensures
            res is Ok <==> self.valid(),
            res matches Err(e) ==> e == TspError::InvalidInput,
    {
        if self.num_cities >= 2 && self.num_particles >= 1 && self.mutation_rate
            <= PROBABILITY_SCALE && self.prune_percentage <= MAX_PERCENTAGE {
            Ok(())
        } else {
            Err(TspError::InvalidInput)
        }
    }
}

impl Default for Config {
    /// The standard configuration: 20 cities, 500 particles, 2000
    /// iterations, inertia from 0.9 to 0.4, both swap thresholds at 1.49445,
    /// a mutation rate of 0.1, and 10 percent of the swarm restarted.
    fn default() -> (config: Config)
        ensures
            config.num_cities == 20,
            config.num_particles == 500,
            config.max_iterations == 2000,
            config.initial_inertia_weight == 900_000,
            config.final_inertia_weight == 400_000,
            config.cognitive_component == 1_494_450,
            config.social_component == 1_494_450,
            config.mutation_rate == 100_000,
            config.prune_percentage == 10,
            config.valid(),
    {
        Config {
            num_cities: 20,
            num_particles: 500,
            max_iterations: 2000,
            initial_inertia_weight: 900_000,
            final_inertia_weight: 400_000,
            cognitive_component: 1_494_450,
            social_component: 1_494_450,
            mutation_rate: 100_000,
            prune_percentage: 10,
        }
    }
}

} // verus!
