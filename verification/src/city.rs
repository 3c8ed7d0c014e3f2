//! Cities, and a generator of random catalogs.

use vstd::prelude::*;
use crate::rng::{
    advance, draw_in_range, lemma_advance_step, next_state, random_range, RandomSource,
};

verus! {

/// Generated coordinates lie in `[0, COORDINATE_LIMIT)`.
pub const COORDINATE_LIMIT: i32 = 100;

/// A city, by its integer coordinates.
#[derive(Clone, Copy, Debug, PartialEq, Eq, Structural)]
pub struct City {
    pub x: i32,
    pub y: i32,
}

/// The city generated when the generator is in state `s`: one draw for `x`,
/// then one for `y`.
pub open spec fn generated_city(s: u64) -> City {
    City {
        x: draw_in_range(s, 0, COORDINATE_LIMIT) as i32,
        y: draw_in_range(next_state(s), 0, COORDINATE_LIMIT) as i32,
    }
}

/// The catalog of `n` cities generated from state `s`.
pub open spec fn generated_cities(s: u64, n: nat) -> Seq<City> {
    Seq::new(n, |i: int| generated_city(advance(s, (2 * i) as nat)))
}

/// A catalog of `num_cities` cities with random coordinates in
/// `[0, COORDINATE_LIMIT)`.
pub fn generate_cities(num_cities: usize, rng: &mut RandomSource) -> (cities: Vec<City>)
    ensures
        cities@ == generated_cities(old(rng)@, num_cities as nat),
        cities.len() == num_cities,
        forall|i: int|
            0 <= i < cities.len() ==> 0 <= (#[trigger] cities[i]).x < COORDINATE_LIMIT && 0
                <= cities[i].y < COORDINATE_LIMIT,
        final(rng)@ == advance(old(rng)@, (2 * num_cities) as nat),
{
    let mut cities: Vec<City> = Vec::with_capacity(num_cities);
    let mut i: usize = 0;
    while i < num_cities
        invariant
            i <= num_cities,
            cities@ == generated_cities(old(rng)@, i as nat),
            forall|k: int|
                0 <= k < cities.len() ==> 0 <= (#[trigger] cities[k]).x < COORDINATE_LIMIT && 0
                    <= cities[k].y < COORDINATE_LIMIT,
            rng@ == advance(old(rng)@, (2 * i) as nat),
        decreases num_cities - i,
    {
        let x = random_range(rng, 0, COORDINATE_LIMIT);
        let y = random_range(rng, 0, COORDINATE_LIMIT);
        cities.push(City { x, y });
        proof {
            lemma_advance_step(old(rng)@, (2 * i + 1) as nat);
        }
        i += 1;
    }
    cities
}

} // verus!
