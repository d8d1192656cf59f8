//! Integer arithmetic shared by the track pipeline: squared planar
//! distances and a floor square root, both over fixed-point
//! millimetre coordinates.

use vstd::prelude::*;

verus! {

/// Floor of the square root of `n`, defined by counting up.
pub open spec fn sqrt_floor(n: nat) -> nat
    decreases n,
{
    if n == 0 {
        0
    } else {
        let r = sqrt_floor((n - 1) as nat);
        if (r + 1) * (r + 1) <= n {
            r + 1
        } else {
            r
        }
    }
}

pub proof fn lemma_sqrt_floor_bounds(n: nat)
    ensures
        sqrt_floor(n) * sqrt_floor(n) <= n,
        n < (sqrt_floor(n) + 1) * (sqrt_floor(n) + 1),
    decreases n,
{
    if n == 0 {
        assert(sqrt_floor(0) == 0);
        assert(n < (sqrt_floor(n) + 1) * (sqrt_floor(n) + 1)) by (nonlinear_arith)
            requires n == 0, sqrt_floor(n) == 0,
        ;
    } else {
        lemma_sqrt_floor_bounds((n - 1) as nat);
        let r = sqrt_floor((n - 1) as nat);
        assert(r * r <= n - 1);
        assert(n - 1 < (r + 1) * (r + 1));
        if (r + 1) * (r + 1) <= n {
            assert(sqrt_floor(n) == r + 1);
            assert(n < (r + 2) * (r + 2)) by (nonlinear_arith)
                requires n <= (r + 1) * (r + 1)
            ;
            assert(n < (sqrt_floor(n) + 1) * (sqrt_floor(n) + 1));
        } else {
            assert(sqrt_floor(n) == r);
            assert(n < (r + 1) * (r + 1));
            assert(n < (sqrt_floor(n) + 1) * (sqrt_floor(n) + 1));
        }
    }
}

/// The bounds `r * r <= n < (r + 1) * (r + 1)` pin the floor square
/// root down uniquely.
pub proof fn lemma_sqrt_floor_unique(n: nat, r: nat)
    requires
        r * r <= n,
        n < (r + 1) * (r + 1),
    ensures
        r == sqrt_floor(n),
{
    lemma_sqrt_floor_bounds(n);
    let s = sqrt_floor(n);
    if r < s {
        assert((r + 1) * (r + 1) <= s * s) by (nonlinear_arith)
            requires r + 1 <= s
        ;
    }
    if s < r {
        assert((s + 1) * (s + 1) <= r * r) by (nonlinear_arith)
            requires s + 1 <= r
        ;
    }
}

/// Floor square root of a `u64`, by binary search.
pub fn isqrt(n: u64) -> (r: u64)
    ensures
        r == sqrt_floor(n as nat),
{
    let mut lo: u64 = 0;
    let mut hi: u64 = 0x1_0000_0000;
    while lo + 1 < hi
        invariant
            lo < hi <= 0x1_0000_0000,
            (lo * lo) as nat <= n as nat,
            (n as nat) < (hi as nat) * (hi as nat),
        decreases hi - lo,
    {
        let mid: u64 = lo + (hi - lo) / 2;
        proof {
            assert((mid as nat) * (mid as nat) <= 0x1_0000_0000 * 0x1_0000_0000)
                by (nonlinear_arith)
                requires mid as nat <= 0x1_0000_0000
            ;
        }
        let sq: u128 = (mid as u128) * (mid as u128);
        if sq <= n as u128 {
            lo = mid;
        } else {
            hi = mid;
        }
    }
    proof {
        lemma_sqrt_floor_unique(n as nat, lo as nat);
    }
    lo
}

/// Squared planar distance between `(px, py)` and `(rx, ry)`.
pub open spec fn dist2(px: int, py: int, rx: int, ry: int) -> int {
    (px - rx) * (px - rx) + (py - ry) * (py - ry)
}

/// Millimetre coordinates admitted by the pipeline; keeps every
/// squared distance within `i64` and every magnitude sum within `u64`.
pub const COORD_LIMIT_MM: i64 = 1_000_000_000;

/// A coordinate the pipeline may hold: at most a thousand kilometres
/// from the local origin, in millimetres.
pub open spec fn coord_in_range(v: int) -> bool {
    -(COORD_LIMIT_MM as int) <= v <= COORD_LIMIT_MM as int
}

pub proof fn lemma_dist2_bounds(px: int, py: int, rx: int, ry: int)
    requires
        coord_in_range(px),
        coord_in_range(py),
        coord_in_range(rx),
        coord_in_range(ry),
    ensures
        0 <= dist2(px, py, rx, ry) <= 8_000_000_000_000_000_000,
{
    let dx = px - rx;
    let dy = py - ry;
    assert(0 <= dx * dx <= 4_000_000_000_000_000_000) by (nonlinear_arith)
        requires -2_000_000_000 <= dx <= 2_000_000_000
    ;
    assert(0 <= dy * dy <= 4_000_000_000_000_000_000) by (nonlinear_arith)
        requires -2_000_000_000 <= dy <= 2_000_000_000
    ;
}

/// Squared planar distance, computed in `i64`.
pub fn dist2_exec(px: i64, py: i64, rx: i64, ry: i64) -> (d: i64)
    requires
        coord_in_range(px as int),
        coord_in_range(py as int),
        coord_in_range(rx as int),
        coord_in_range(ry as int),
    ensures
        d == dist2(px as int, py as int, rx as int, ry as int),
        0 <= d <= 8_000_000_000_000_000_000,
{
    proof {
        lemma_dist2_bounds(px as int, py as int, rx as int, ry as int);
        let dx = px - rx;
        let dy = py - ry;
        assert(0 <= dx * dx <= 4_000_000_000_000_000_000) by (nonlinear_arith)
            requires -2_000_000_000 <= dx <= 2_000_000_000
        ;
        assert(0 <= dy * dy <= 4_000_000_000_000_000_000) by (nonlinear_arith)
            requires -2_000_000_000 <= dy <= 2_000_000_000
        ;
    }
    let dx: i64 = px - rx;
    let dy: i64 = py - ry;
    dx * dx + dy * dy
}

} // verus!
