//! Dendrite (diffusion-limited aggregation) pattern generation on a
//! fixed-point integer canvas, built on a uniform-cell spatial hash grid.
//!
//! Coordinates are plain `i64` values in caller-chosen units; every public
//! operation is specified over mathematical models of those values.

use vstd::prelude::*;

pub mod dendrite;
pub mod grid;
pub mod rng;

verus! {

/// Largest coordinate value (and cell size) the library accepts.
///
/// Keeping all coordinates in `[0, COORD_LIMIT]` bounds every intermediate
/// product so that squared distances and biased walk steps fit in `i64`.
pub const COORD_LIMIT: i64 = 1_000_000_000;

/// A point is inside the working range of the library.
pub open spec fn coord_in_range(p: (i64, i64)) -> bool {
    0 <= p.0 <= COORD_LIMIT && 0 <= p.1 <= COORD_LIMIT
}

/// Squared Euclidean distance between two points.
pub open spec fn spec_dist_sq(a: (i64, i64), b: (i64, i64)) -> int {
    (a.0 - b.0) * (a.0 - b.0) + (a.1 - b.1) * (a.1 - b.1)
}

/// Squared distances of in-range points fit comfortably in `i64`.
pub proof fn lemma_dist_sq_bounds(a: (i64, i64), b: (i64, i64))
    requires
        coord_in_range(a),
        coord_in_range(b),
    ensures
        0 <= spec_dist_sq(a, b) <= 2_000_000_000_000_000_000,
{
    let dx = a.0 - b.0;
    let dy = a.1 - b.1;
    assert(-COORD_LIMIT <= dx <= COORD_LIMIT);
    assert(-COORD_LIMIT <= dy <= COORD_LIMIT);
    assert(dx * dx <= 1_000_000_000_000_000_000) by (nonlinear_arith)
        requires -1_000_000_000 <= dx <= 1_000_000_000;
    assert(dy * dy <= 1_000_000_000_000_000_000) by (nonlinear_arith)
        requires -1_000_000_000 <= dy <= 1_000_000_000;
    assert(dx * dx >= 0) by (nonlinear_arith);
    assert(dy * dy >= 0) by (nonlinear_arith);
}

/// Computes the squared Euclidean distance between two in-range points.
pub fn dist_sq(a: (i64, i64), b: (i64, i64)) -> (r: i64)
    requires
        coord_in_range(a),
        coord_in_range(b),
    ensures
        r == spec_dist_sq(a, b),
{
    let dx = a.0 - b.0;
    let dy = a.1 - b.1;
    proof {
        assert(0 <= dx * dx <= 1_000_000_000_000_000_000) by (nonlinear_arith)
            requires -1_000_000_000 <= dx <= 1_000_000_000;
        assert(0 <= dy * dy <= 1_000_000_000_000_000_000) by (nonlinear_arith)
            requires -1_000_000_000 <= dy <= 1_000_000_000;
    }
    dx * dx + dy * dy
}

} // verus!
