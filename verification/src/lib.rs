//! Particle swarm optimisation for the travelling salesman problem.
//!
//! A particle is a tour: a permutation of the city indices. Continuous
//! velocities are replaced by index swaps, costs are kept in exact fixed-point
//! arithmetic, and every random decision is drawn from a seedable generator,
//! so that each function is a mathematical function of its arguments.
//!
//! - [`rng`]: the pseudo-random source.
//! - [`permutation`]: permutations, swaps and the shuffle.
//! - [`city`], [`cost`]: the catalog of cities and the cost of a tour.
//! - [`config`], [`error`]: the configuration of a run and the errors.
//! - [`particle`], [`swarm`]: particles, the swarm, and the move of a particle.
//! - [`operators`]: the swap operators of a move.
//! - [`prune`]: the stable sort by cost, and prune and restart.
//! - [`optimizer`]: the iteration, the run, and what holds throughout a run.

pub mod city;
pub mod config;
pub mod cost;
pub mod error;
pub mod operators;
pub mod optimizer;
pub mod particle;
pub mod permutation;
pub mod prune;
pub mod rng;
pub mod swarm;
