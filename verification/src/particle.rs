//! A particle: one candidate tour with the best tour it has ever held; and the
//! best tour known to the whole swarm.

use vstd::prelude::*;
use crate::city::City;
use crate::cost::{calculate_cost, tour_cost};
use crate::error::TspError;
use crate::permutation::{
    check_permutation, identity, identity_permutation, is_permutation, lemma_identity_is_permutation,
    lemma_shuffle_steps_rearrange, shuffle_vec, shuffled,
};
use crate::rng::{advance, RandomSource};

verus! {

/// One candidate solution and its history.
#[derive(Clone, Debug, PartialEq, Eq)]
pub struct Particle {
    /// The current tour.
    pub position: Vec<usize>,
    /// The cheapest tour this particle has held.
    pub best_position: Vec<usize>,
    /// The cost of `best_position`.
    pub best_cost: u128,
    /// The cost of `position`.
    pub cost: u128,
}

/// The mathematical value of a particle.
pub struct ParticleView {
    pub position: Seq<usize>,
    pub best_position: Seq<usize>,
    pub best_cost: nat,
    pub cost: nat,
}

impl View for Particle {
    type V = ParticleView;

    open spec fn view(&self) -> ParticleView {
        ParticleView {
            position: self.position@,
            best_position: self.best_position@,
            best_cost: self.best_cost as nat,
            cost: self.cost as nat,
        }
    }
}

/// The best tour found by any particle so far.
#[derive(Clone, Debug, PartialEq, Eq)]
pub struct GlobalBest {
    /// The tour.
    pub position: Vec<usize>,
    /// Its cost.
    pub cost: u128,
}

/// The mathematical value of a global best.
pub struct GlobalBestView {
    pub position: Seq<usize>,
    pub cost: nat,
}

impl View for GlobalBest {
    type V = GlobalBestView;

    open spec fn view(&self) -> GlobalBestView {
        GlobalBestView { position: self.position@, cost: self.cost as nat }
    }
}

/// A tour over all of `cities`: a permutation with one entry for each city.
pub open spec fn is_tour(route: Seq<usize>, cities: Seq<City>) -> bool {
    route.len() == cities.len() && is_permutation(route)
}

impl ParticleView {
    /// The particle is consistent with the catalog `cities`: both of its
    /// tours are tours over the catalog, each cost is the cost of its tour,
    /// and the best tour costs no more than the current one.
    pub open spec fn well_formed(self, cities: Seq<City>) -> bool {
        &&& is_tour(self.position, cities)
        &&& is_tour(self.best_position, cities)
        &&& self.cost == tour_cost(self.position, cities)
        &&& self.best_cost == tour_cost(self.best_position, cities)
        &&& self.best_cost <= self.cost
    }

    /// The particle that holds `position` and has no history yet.
    pub open spec fn fresh(position: Seq<usize>, cost: nat) -> ParticleView {
        ParticleView { position, best_position: position, best_cost: cost, cost }
    }

    /// The particle created when the generator is in state `s`: the shuffled
    /// identity tour, at its cost.
    pub open spec fn initial(cities: Seq<City>, s: u64) -> ParticleView {
        let position = shuffled(identity(cities.len()), s);
        ParticleView::fresh(position, tour_cost(position, cities))
    }
}

impl GlobalBestView {
    /// The global best is consistent with the catalog `cities`.
    pub open spec fn well_formed(self, cities: Seq<City>) -> bool {
        &&& is_tour(self.position, cities)
        &&& self.cost == tour_cost(self.position, cities)
    }

    /// The global best taken from the history of `p`.
    pub open spec fn of(p: ParticleView) -> GlobalBestView {
        GlobalBestView { position: p.best_position, cost: p.best_cost }
    }
}

/// A particle created on a catalog is consistent with the catalog.
pub proof fn lemma_initial_well_formed(cities: Seq<City>, s: u64)
    requires
        cities.len() <= usize::MAX,
    ensures
        ParticleView::initial(cities, s).well_formed(cities),
{
    lemma_identity_is_permutation(cities.len());
    lemma_shuffle_steps_rearrange(identity(cities.len()), s, cities.len());
}

/// The error that a failed consistency check against a catalog of `n` cities
/// reports: a catalog too small for any tour is an invalid input, anything
/// else a violated invariant.
pub open spec fn inconsistency(n: nat) -> TspError {
    if n < 2 {
        TspError::InvalidInput
    } else {
        TspError::InternalInvariantViolation
    }
}

/// Tells whether `route` is a tour over `cities` and `cost` is its cost.
pub fn check_tour(route: &Vec<usize>, cost: u128, cities: &[City]) -> (res: Result<(), TspError>)
    ensures
        res is Ok <==> cities.len() >= 2 && is_tour(route@, cities@) && cost == tour_cost(
            route@,
            cities@,
        ),
        res matches Err(e) ==> e == inconsistency(cities@.len()),
{
    if cities.len() < 2 {
        return Err(TspError::InvalidInput);
    }
    if route.len() != cities.len() || check_permutation(route.as_slice()).is_err() {
        return Err(TspError::InternalInvariantViolation);
    }
    if calculate_cost(route.as_slice(), cities).unwrap() != cost {
        return Err(TspError::InternalInvariantViolation);
    }
    Ok(())
}

/// A copy of `route`.
pub fn copy_route(route: &Vec<usize>) -> (copy: Vec<usize>)
    ensures
        copy@ == route@,
{
    route.clone()
}

impl Particle {
    /// A particle at `position` with cost `cost`, whose best tour is the
    /// tour it starts with.
    pub fn new(position: Vec<usize>, cost: u128) -> (p: Particle)
        ensures
            p@ == ParticleView::fresh(position@, cost as nat),
    {
        Particle { best_position: copy_route(&position), best_cost: cost, position, cost }
    }

    /// A particle on a shuffled tour over `cities`, without history.
    pub fn initialize(cities: &[City], rng: &mut RandomSource) -> (p: Particle)
        requires
            cities.len() >= 2,
        ensures
            p@ == ParticleView::initial(cities@, old(rng)@),
            p@.well_formed(cities@),
            final(rng)@ == advance(old(rng)@, cities.len() as nat),
    {
        let mut position = identity_permutation(cities.len());
        shuffle_vec(&mut position, rng);
        let cost = calculate_cost(position.as_slice(), cities).unwrap();
        Particle::new(position, cost)
    }

    /// Tells whether the particle is consistent with the catalog `cities`.
    pub fn check(&self, cities: &[City]) -> (res: Result<(), TspError>)
        ensures
            res is Ok <==> cities.len() >= 2 && self@.well_formed(cities@),
            res matches Err(e) ==> e == inconsistency(cities@.len()),
    {
        if cities.len() < 2 {
            return Err(TspError::InvalidInput);
        }
        if check_tour(&self.position, self.cost, cities).is_err() || check_tour(
            &self.best_position,
            self.best_cost,
            cities,
        ).is_err() || self.best_cost > self.cost {
            return Err(TspError::InternalInvariantViolation);
        }
        Ok(())
    }
}

impl GlobalBest {
    /// Tells whether the global best is consistent with the catalog
    /// `cities`.
    pub fn check(&self, cities: &[City]) -> (res: Result<(), TspError>)
        ensures
            res is Ok <==> cities.len() >= 2 && self@.well_formed(cities@),
            res matches Err(e) ==> e == inconsistency(cities@.len()),
    {
        check_tour(&self.position, self.cost, cities)
    }

    /// The global best a swarm starts with: the best tour of `p`.
    pub fn from_particle(p: &Particle) -> (best: GlobalBest)
        ensures
            best@ == GlobalBestView::of(p@),
    {
        GlobalBest { position: copy_route(&p.best_position), cost: p.best_cost }
    }
}

} // verus!
