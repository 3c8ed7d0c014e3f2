//! The ways in which a request to the optimiser can fail.

use vstd::prelude::*;

verus! {

/// Why an operation was refused.
#[derive(Clone, Copy, Debug, PartialEq, Eq, Structural)]
pub enum TspError {
    /// The city catalog has fewer than two cities, a route and a catalog
    /// differ in length, or a configuration value is outside its domain.
    InvalidInput,
    /// A sequence that must be a permutation of the city indices holds an
    /// index twice or an index that names no city.
    InternalInvariantViolation,
}

} // verus!
