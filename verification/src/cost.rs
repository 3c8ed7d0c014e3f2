//! The length of a tour.
//!
//! Lengths are fixed-point numbers: a cost counts millionths of a coordinate
//! unit, and the length of one edge is its Euclidean length rounded down to
//! that resolution. Integer arithmetic makes every cost exact and every
//! comparison of two costs reproducible.

use vstd::prelude::*;
use crate::city::City;
use crate::error::TspError;

verus! {

/// A cost of `COST_SCALE` is the distance between two cities one coordinate
/// unit apart.
pub const COST_SCALE: u128 = 1_000_000;

/// The square of `COST_SCALE`.
pub const COST_SCALE_SQUARED: u128 = 1_000_000_000_000;

/// No edge between two cities costs this much or more.
pub const EDGE_COST_LIMIT: u128 = 0x20_0000_0000_0000;

/// `r` is the square root of `n`, rounded down.
pub open spec fn is_integer_sqrt(n: nat, r: nat) -> bool {
    r * r <= n < (r + 1) * (r + 1)
}

/// The square root of `n`, rounded down.
pub open spec fn integer_sqrt(n: nat) -> nat {
    choose|r: nat| is_integer_sqrt(n, r)
}

/// Squaring keeps the order of natural numbers.
proof fn lemma_square_monotonic(a: nat, b: nat)
    by (nonlinear_arith)
    requires
        a <= b,
    ensures
        a * a <= b * b,
{
}

/// Every natural number has a rounded-down square root.
proof fn lemma_integer_sqrt_exists(n: nat) -> (r: nat)
    ensures
        is_integer_sqrt(n, r),
    decreases n,
{
    if n == 0 {
        assert(is_integer_sqrt(0, 0)) by (nonlinear_arith);
        0
    } else {
        let below = lemma_integer_sqrt_exists((n - 1) as nat);
        let next = below + 1;
        if next * next <= n {
            assert(next * next < (next + 1) * (next + 1)) by (nonlinear_arith);
            next
        } else {
            below
        }
    }
}

/// Every natural number has exactly one rounded-down square root, and
/// `integer_sqrt` is that number.
pub proof fn lemma_integer_sqrt_unique(n: nat, r: nat)
    ensures
        is_integer_sqrt(n, integer_sqrt(n)),
        is_integer_sqrt(n, r) ==> r == integer_sqrt(n),
{
    let witness = lemma_integer_sqrt_exists(n);
    assert(is_integer_sqrt(n, witness));
    let root = integer_sqrt(n);
    if is_integer_sqrt(n, r) {
        if r < root {
            lemma_square_monotonic(r + 1, root);
        } else if root < r {
            lemma_square_monotonic(root + 1, r);
        }
    }
}

/// The square root of `n`, rounded down.
pub fn isqrt(n: u128) -> (root: u128)
    ensures
        root == integer_sqrt(n as nat),
        is_integer_sqrt(n as nat, root as nat),
        root < 0x1_0000_0000_0000_0000,
{
    let mut low: u128 = 0;
    let mut high: u128 = 0x1_0000_0000_0000_0000;
    assert(n < high * high) by (nonlinear_arith)
        requires
            high == 0x1_0000_0000_0000_0000,
            n <= u128::MAX,
    ;
    while high - low > 1
        invariant
            low < high <= 0x1_0000_0000_0000_0000,
            low * low <= n < high * high,
        decreases high - low,
    {
        let mid = low + (high - low) / 2;
        assert(mid * mid <= u128::MAX) by (nonlinear_arith)
            requires
                mid < 0x1_0000_0000_0000_0000,
        ;
        if mid * mid <= n {
            low = mid;
        } else {
            high = mid;
        }
    }
    proof {
        lemma_integer_sqrt_unique(n as nat, low as nat);
    }
    low
}

/// The square of the Euclidean distance between two cities.
pub open spec fn squared_distance(a: City, b: City) -> nat {
    ((a.x - b.x) * (a.x - b.x) + (a.y - b.y) * (a.y - b.y)) as nat
}

/// The cost of the edge between two cities: their Euclidean distance in
/// millionths of a coordinate unit, rounded down.
pub open spec fn edge_cost(a: City, b: City) -> nat {
    integer_sqrt(squared_distance(a, b) * COST_SCALE_SQUARED as nat)
}

/// Every entry of `route` names a city of a catalog of `n` cities.
pub open spec fn in_catalog(route: Seq<usize>, n: nat) -> bool {
    forall|i: int| 0 <= i < route.len() ==> (#[trigger] route[i]) < n
}

/// The cost of the first `k` edges of `route`: from each of its first `k`
/// cities to the next.
pub open spec fn path_cost(route: Seq<usize>, cities: Seq<City>, k: nat) -> nat
    decreases k,
{
    if k == 0 {
        0
    } else {
        path_cost(route, cities, (k - 1) as nat) + edge_cost(
            cities[route[k - 1] as int],
            cities[route[k as int] as int],
        )
    }
}

/// The cost of the closed tour `route`: every edge between consecutive
/// cities, and the edge that leads from the last city back to the first.
pub open spec fn tour_cost(route: Seq<usize>, cities: Seq<City>) -> nat {
    path_cost(route, cities, (route.len() - 1) as nat) + edge_cost(
        cities[route[0] as int],
        cities[route[route.len() - 1] as int],
    )
}

/// The distance between two coordinates on one axis.
fn axis_gap(p: i32, q: i32) -> (gap: u128)
    ensures
        gap == if p >= q {
            p - q
        } else {
            q - p
        },
        gap < 0x1_0000_0000,
{
    if p >= q {
        (p as i64 - q as i64) as u128
    } else {
        (q as i64 - p as i64) as u128
    }
}

/// The cost of the edge between two cities.
pub fn distance(a: &City, b: &City) -> (cost: u128)
    ensures
        cost == edge_cost(*a, *b),
        cost < EDGE_COST_LIMIT,
{
    let dx = axis_gap(a.x, b.x);
    let dy = axis_gap(a.y, b.y);
    assert(dx * dx == (a.x - b.x) * (a.x - b.x) && dx * dx < 0x1_0000_0000_0000_0000)
        by (nonlinear_arith)
        requires
            dx == a.x - b.x || dx == -(a.x - b.x),
            0 <= dx < 0x1_0000_0000,
    ;
    assert(dy * dy == (a.y - b.y) * (a.y - b.y) && dy * dy < 0x1_0000_0000_0000_0000)
        by (nonlinear_arith)
        requires
            dy == a.y - b.y || dy == -(a.y - b.y),
            0 <= dy < 0x1_0000_0000,
    ;
    let squared: u128 = dx * dx + dy * dy;
    let scaled: u128 = squared * COST_SCALE_SQUARED;
    let root = isqrt(scaled);
    proof {
        if root >= EDGE_COST_LIMIT {
            lemma_square_monotonic(EDGE_COST_LIMIT as nat, root as nat);
            assert(EDGE_COST_LIMIT as nat * EDGE_COST_LIMIT as nat
                == 0x400_0000_0000_0000_0000_0000_0000) by (nonlinear_arith)
                requires
                    EDGE_COST_LIMIT == 0x20_0000_0000_0000,
            ;
        }
    }
    root
}

/// The cost of the closed tour that visits the cities in the order `route`
/// gives. A tour needs two cities at least, and one entry for each city of
/// the catalog.
pub fn calculate_cost(route: &[usize], cities: &[City]) -> (res: Result<u128, TspError>)
    requires
        route.len() == cities.len() ==> in_catalog(route@, cities@.len()),
    ensures
        res is Err <==> route.len() < 2 || cities.len() != route.len(),
        res matches Err(e) ==> e == TspError::InvalidInput,
        res matches Ok(cost) ==> cost == tour_cost(route@, cities@),
{
    let n = route.len();
    if n < 2 || cities.len() != n {
        return Err(TspError::InvalidInput);
    }
    let mut total: u128 = 0;
    let mut i: usize = 0;
    while i < n - 1
        invariant
            2 <= n,
            i <= n - 1,
            n == route.len(),
            n == cities.len(),
            in_catalog(route@, cities@.len()),
            total == path_cost(route@, cities@, i as nat),
            total <= i * EDGE_COST_LIMIT,
        decreases n - i,
    {
        let step = distance(&cities[route[i]], &cities[route[i + 1]]);
        total = total + step;
        i += 1;
    }
    let closing = distance(&cities[route[0]], &cities[route[n - 1]]);
    Ok(total + closing)
}

} // verus!
