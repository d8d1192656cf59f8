//! Snapping a rider polyline onto a reference polyline through the
//! uniform grid.

use vstd::prelude::*;
use vstd::array::*;
use crate::config::snapping::SnappingConfig;
use crate::math::{coord_in_range, dist2, dist2_exec, isqrt, sqrt_floor};
use crate::model::grid::{Grid, lemma_cell_coords, lemma_cell_in_grid, lemma_cell_slice_in_bounds};
use crate::model::points::{MatchPoint, Point, points_in_range};

verus! {

/// Division truncating toward zero, for a positive divisor.
pub open spec fn tdiv(a: int, b: int) -> int {
    if a >= 0 {
        a / b
    } else {
        -((-a) / b)
    }
}

/// The best (squared distance, index) pair after scanning the
/// candidates left to right, starting from an accumulator; a
/// candidate replaces the accumulator only when strictly closer, so
/// the first of equally close candidates wins.
pub open spec fn best_from<U: Point>(
    refs: Seq<U>,
    cands: Seq<u32>,
    px: int,
    py: int,
    acc_d2: int,
    acc_idx: u32,
) -> (int, u32)
    decreases cands.len(),
{
    if cands.len() == 0 {
        (acc_d2, acc_idx)
    } else {
        let k = cands[0];
        let d2 = dist2(px, py, refs[k as int].sx(), refs[k as int].sy());
        if d2 < acc_d2 {
            best_from(refs, cands.subrange(1, cands.len() as int), px, py, d2, k)
        } else {
            best_from(refs, cands.subrange(1, cands.len() as int), px, py, acc_d2, acc_idx)
        }
    }
}

/// The bucket of cell `c`, as the slice of the packed index vector
/// its descriptor names.
pub open spec fn bucket_seq(grid: Grid, c: int) -> Seq<u32> {
    grid.indices@.subrange(
        grid.cells@[c].start as int,
        grid.cells@[c].start + grid.cells@[c].count,
    )
}

/// The candidate reference indices from the first `k` cells of the
/// Moore neighbourhood of `cell`, in enumeration order.
pub open spec fn cands_upto(grid: Grid, cell: int, k: int) -> Seq<u32>
    decreases k,
{
    if k <= 0 {
        Seq::empty()
    } else {
        cands_upto(grid, cell, k - 1) + bucket_seq(grid, grid.spec_neighbor(cell, k - 1))
    }
}

/// All candidate reference indices for a rider point in `cell`: the
/// union of the nine Moore-neighbourhood buckets, in enumeration
/// order.
pub open spec fn candidates_of(grid: Grid, cell: int) -> Seq<u32> {
    cands_upto(grid, cell, 9)
}

/// The pre-clamp snap of rider point `j`: the minimum squared
/// distance over the candidates and the first candidate index
/// attaining it.
pub open spec fn spec_best_at<T: Point, U: Point>(
    rider: Seq<T>,
    refs: Seq<U>,
    grid: Grid,
    j: int,
) -> (int, u32) {
    let cell = grid.spec_cell_of(rider[j].sx(), rider[j].sy());
    best_from(refs, candidates_of(grid, cell), rider[j].sx(), rider[j].sy(), i64::MAX as int, 0u32)
}

/// The directional metric at rider point `j` snapped to `idx`: the
/// dot product of the two step vectors over the floor square root of
/// the sum of their squared lengths, truncated toward zero;
/// millimetres. Zero at the first point, at reference index zero, and
/// when both steps are empty.
pub open spec fn spec_similarity<T: Point, U: Point>(
    rider: Seq<T>,
    refs: Seq<U>,
    j: int,
    idx: u32,
) -> int {
    if j >= 1 && idx >= 1 {
        let ux = refs[idx as int].sx() - refs[idx as int - 1].sx();
        let uy = refs[idx as int].sy() - refs[idx as int - 1].sy();
        let vx = rider[j].sx() - rider[j - 1].sx();
        let vy = rider[j].sy() - rider[j - 1].sy();
        let dot = ux * vx + uy * vy;
        let mag = sqrt_floor((ux * ux + uy * uy + vx * vx + vy * vy) as nat);
        if mag == 0 {
            0
        } else {
            tdiv(dot, mag as int)
        }
    } else {
        0
    }
}

/// The match emitted for rider point `j`, given the index chosen at
/// `j - 1`. The clamp forces the previous index when the best
/// candidate falls more than the clamp behind it; `lateral` records
/// the pre-clamp minimum distance.
pub open spec fn spec_match_at<T: Point, U: Point>(
    rider: Seq<T>,
    refs: Seq<U>,
    grid: Grid,
    cc: u32,
    j: int,
    prev: u32,
) -> MatchPoint {
    let best = spec_best_at(rider, refs, grid, j);
    let chosen = if j > 0 && best.1 + cc < prev {
        prev
    } else {
        best.1
    };
    MatchPoint {
        reference_index: chosen,
        delta_ms: rider[j].sdelta() as i64,
        direction_similarity: spec_similarity(rider, refs, j, chosen) as i64,
        lateral: sqrt_floor(best.0 as nat) as i64,
        distance_z: (rider[j].sz() - refs[chosen as int].sz()) as i64,
        count_to_error: false,
    }
}

/// The matched track over the first `n` rider points: each point is
/// snapped with the monotonic-progress clamp against the index chosen
/// one step earlier.
pub open spec fn snap_prefix<T: Point, U: Point>(
    rider: Seq<T>,
    refs: Seq<U>,
    grid: Grid,
    cc: u32,
    n: int,
) -> Seq<MatchPoint>
    decreases n,
{
    if n <= 0 {
        Seq::empty()
    } else {
        let pre = snap_prefix(rider, refs, grid, cc, n - 1);
        let prev = if n == 1 {
            0u32
        } else {
            pre[n - 2].reference_index
        };
        pre.push(spec_match_at(rider, refs, grid, cc, n - 1, prev))
    }
}

/// Scanning a concatenation is scanning the second part from the
/// outcome of the first.
pub proof fn lemma_best_from_append<U: Point>(
    refs: Seq<U>,
    s1: Seq<u32>,
    s2: Seq<u32>,
    px: int,
    py: int,
    acc_d2: int,
    acc_idx: u32,
)
    ensures
        best_from(refs, s1 + s2, px, py, acc_d2, acc_idx) == best_from(
            refs,
            s2,
            px,
            py,
            best_from(refs, s1, px, py, acc_d2, acc_idx).0,
            best_from(refs, s1, px, py, acc_d2, acc_idx).1,
        ),
    decreases s1.len(),
{
    if s1.len() == 0 {
        assert(s1 + s2 =~= s2);
    } else {
        let t = s1 + s2;
        assert(t[0] == s1[0]);
        assert(t.subrange(1, t.len() as int) =~= s1.subrange(1, s1.len() as int) + s2);
        let k = s1[0];
        let d2 = dist2(px, py, refs[k as int].sx(), refs[k as int].sy());
        if d2 < acc_d2 {
            lemma_best_from_append(refs, s1.subrange(1, s1.len() as int), s2, px, py, d2, k);
        } else {
            lemma_best_from_append(
                refs,
                s1.subrange(1, s1.len() as int),
                s2,
                px,
                py,
                acc_d2,
                acc_idx,
            );
        }
    }
}

/// A scan from an accumulator keeps the accumulator unless the scan
/// from the sentinel beats it.
pub proof fn lemma_best_from_acc<U: Point>(
    refs: Seq<U>,
    s: Seq<u32>,
    px: int,
    py: int,
    acc_d2: int,
    acc_idx: u32,
)
    requires
        points_in_range(refs),
        coord_in_range(px),
        coord_in_range(py),
        forall|m: int| 0 <= m < s.len() ==> (#[trigger] s[m]) < refs.len(),
        0 <= acc_d2 <= i64::MAX as int,
    ensures
        best_from(refs, s, px, py, acc_d2, acc_idx) == {
            let m = best_from(refs, s, px, py, i64::MAX as int, 0u32);
            if m.0 < acc_d2 {
                m
            } else {
                (acc_d2, acc_idx)
            }
        },
    decreases s.len(),
{
    if s.len() == 0 {
    } else {
        let k = s[0];
        let d2 = dist2(px, py, refs[k as int].sx(), refs[k as int].sy());
        crate::math::lemma_dist2_bounds(px, py, refs[k as int].sx(), refs[k as int].sy());
        let tail = s.subrange(1, s.len() as int);
        lemma_best_from_acc(refs, tail, px, py, acc_d2, acc_idx);
        lemma_best_from_acc(refs, tail, px, py, d2, k);
        lemma_best_from_valid(refs, tail, px, py, d2, k);
        lemma_best_from_valid(refs, tail, px, py, i64::MAX as int, 0u32);
        let m2 = best_from(refs, tail, px, py, i64::MAX as int, 0u32);
        assert(d2 < i64::MAX as int);
        assert(best_from(refs, s, px, py, i64::MAX as int, 0u32) == best_from(
            refs,
            tail,
            px,
            py,
            d2,
            k,
        ));
        if d2 < acc_d2 {
            assert(best_from(refs, s, px, py, acc_d2, acc_idx) == best_from(
                refs,
                tail,
                px,
                py,
                d2,
                k,
            ));
            assert(best_from(refs, tail, px, py, d2, k).0 <= d2);
        } else {
            assert(best_from(refs, s, px, py, acc_d2, acc_idx) == best_from(
                refs,
                tail,
                px,
                py,
                acc_d2,
                acc_idx,
            ));
            assert(best_from(refs, tail, px, py, acc_d2, acc_idx) == if m2.0 < acc_d2 {
                m2
            } else {
                (acc_d2, acc_idx)
            });
            assert(best_from(refs, tail, px, py, d2, k) == if m2.0 < d2 {
                m2
            } else {
                (d2, k)
            });
        }
    }
}

/// What a scan yields: a nonnegative distance not above the
/// accumulator, and an index that is either the accumulator's or one
/// of the candidates, paired with its own distance.
pub proof fn lemma_best_from_valid<U: Point>(
    refs: Seq<U>,
    s: Seq<u32>,
    px: int,
    py: int,
    acc_d2: int,
    acc_idx: u32,
)
    requires
        points_in_range(refs),
        coord_in_range(px),
        coord_in_range(py),
        forall|m: int| 0 <= m < s.len() ==> (#[trigger] s[m]) < refs.len(),
        0 <= acc_d2,
    ensures
        0 <= best_from(refs, s, px, py, acc_d2, acc_idx).0 <= acc_d2,
        best_from(refs, s, px, py, acc_d2, acc_idx) == (acc_d2, acc_idx) || (exists|m: int|
            0 <= m < s.len() && (#[trigger] s[m]) == best_from(refs, s, px, py, acc_d2, acc_idx).1
                && dist2(px, py, refs[s[m] as int].sx(), refs[s[m] as int].sy()) == best_from(
                refs,
                s,
                px,
                py,
                acc_d2,
                acc_idx,
            ).0),
        forall|m: int|
            0 <= m < s.len() ==> best_from(refs, s, px, py, acc_d2, acc_idx).0 <= dist2(
                px,
                py,
                refs[(#[trigger] s[m]) as int].sx(),
                refs[s[m] as int].sy(),
            ),
    decreases s.len(),
{
    if s.len() == 0 {
    } else {
        let k = s[0];
        let d2 = dist2(px, py, refs[k as int].sx(), refs[k as int].sy());
        crate::math::lemma_dist2_bounds(px, py, refs[k as int].sx(), refs[k as int].sy());
        let tail = s.subrange(1, s.len() as int);
        let r = best_from(refs, s, px, py, acc_d2, acc_idx);
        if d2 < acc_d2 {
            lemma_best_from_valid(refs, tail, px, py, d2, k);
            if r != (d2, k) {
                let m = choose|m: int|
                    0 <= m < tail.len() && (#[trigger] tail[m]) == r.1 && dist2(
                        px,
                        py,
                        refs[tail[m] as int].sx(),
                        refs[tail[m] as int].sy(),
                    ) == r.0;
                assert(s[m + 1] == tail[m]);
            } else {
                assert(s[0] == k);
            }
        } else {
            lemma_best_from_valid(refs, tail, px, py, acc_d2, acc_idx);
            if r != (acc_d2, acc_idx) {
                let m = choose|m: int|
                    0 <= m < tail.len() && (#[trigger] tail[m]) == r.1 && dist2(
                        px,
                        py,
                        refs[tail[m] as int].sx(),
                        refs[tail[m] as int].sy(),
                    ) == r.0;
                assert(s[m + 1] == tail[m]);
            }
        }
        assert forall|m: int|
            0 <= m < s.len() implies r.0 <= dist2(
            px,
            py,
            refs[(#[trigger] s[m]) as int].sx(),
            refs[s[m] as int].sy(),
        ) by {
            if m > 0 {
                assert(tail[m - 1] == s[m]);
            }
        }
    }
}

/// Finds the candidate nearest to `(px, py)` among
/// `indices[start .. start + count]`, scanning left to right with
/// strict improvement, from the sentinel accumulator.
pub fn min_distance<U: Point>(
    px: i64,
    py: i64,
    refs: &Vec<U>,
    indices: &Vec<u32>,
    start: usize,
    count: usize,
) -> (r: (i64, u32))
    requires
        coord_in_range(px as int),
        coord_in_range(py as int),
        points_in_range(refs@),
        start + count <= indices@.len(),
        forall|p: int| start <= p < start + count ==> (#[trigger] indices@[p]) < refs@.len(),
    ensures
        (r.0 as int, r.1) == best_from(
            refs@,
            indices@.subrange(start as int, start + count),
            px as int,
            py as int,
            i64::MAX as int,
            0u32,
        ),
        0 <= r.0,
{
    let ghost whole = indices@.subrange(start as int, start + count);
    let il = indices.len();
    let end: usize = start + count;
    let mut best_d2: i64 = i64::MAX;
    let mut best_idx: u32 = 0;
    let mut p: usize = start;
    while p < end
        invariant
            start <= p <= end,
            end == start + count,
            start + count <= indices@.len(),
            coord_in_range(px as int),
            coord_in_range(py as int),
            points_in_range(refs@),
            forall|q: int| start <= q < start + count ==> (#[trigger] indices@[q]) < refs@.len(),
            whole == indices@.subrange(start as int, start + count),
            0 <= best_d2,
            best_from(refs@, whole, px as int, py as int, i64::MAX as int, 0u32) == best_from(
                refs@,
                indices@.subrange(p as int, start + count),
                px as int,
                py as int,
                best_d2 as int,
                best_idx,
            ),
        decreases end - p,
    {
        let k = indices[p];
        let d2 = dist2_exec(px, py, refs[k as usize].x(), refs[k as usize].y());
        proof {
            let rest = indices@.subrange(p as int, start + count);
            assert(rest[0] == indices@[p as int]);
            assert(rest.subrange(1, rest.len() as int) =~= indices@.subrange(
                p as int + 1,
                start + count,
            ));
        }
        if d2 < best_d2 {
            best_d2 = d2;
            best_idx = k;
        }
        p += 1;
    }
    proof {
        assert(indices@.subrange(start + count, start + count) =~= Seq::<u32>::empty());
    }
    (best_d2, best_idx)
}

/// Snaps each rider vertex to its nearest reference vertex through
/// the grid, with the monotonic-progress clamp; appends one match per
/// rider vertex to the empty output vector, in rider order.
pub fn snap<T: Point, U: Point>(
    rider: &Vec<T>,
    refs: &Vec<U>,
    grid: &Grid,
    out: &mut Vec<MatchPoint>,
    config: &SnappingConfig,
)
    requires
        points_in_range(rider@),
        points_in_range(refs@),
        grid.wf(refs@),
        grid.dims_in_range(),
        1 <= refs@.len() <= 0xFFFF_FFFF,
        old(out)@.len() == 0,
    ensures
        final(out)@ == snap_prefix(
            rider@,
            refs@,
            *grid,
            config.spec_continuity_clamp(),
            rider@.len() as int,
        ),
        final(out)@.len() == rider@.len(),
        forall|q: int|
            0 <= q < rider@.len() ==> (#[trigger] final(out)@[q].reference_index) < refs@.len(),
{
    let cc = config.get_continuity_clamp();
    let mut neighbors: [usize; 9] = [0; 9];
    let n = rider.len();
    let mut ridx: usize = 0;
    while ridx < n
        invariant
            points_in_range(rider@),
            points_in_range(refs@),
            grid.wf(refs@),
            grid.dims_in_range(),
            1 <= refs@.len() <= 0xFFFF_FFFF,
            cc == config.spec_continuity_clamp(),
            n == rider@.len(),
            ridx <= n,
            out@ == snap_prefix(rider@, refs@, *grid, cc, ridx as int),
            out@.len() == ridx,
            forall|q: int|
                0 <= q < ridx ==> (#[trigger] out@[q].reference_index) < refs@.len(),
        decreases n - ridx,
    {
        let px = rider[ridx].x();
        let py = rider[ridx].y();
        let cell = grid.cell_index(px, py);
        grid.neighbors(cell, &mut neighbors);
        let mut best_d2: i64 = i64::MAX;
        let mut best_idx: u32 = 0;
        let mut k: usize = 0;
        while k < 9
            invariant
                points_in_range(rider@),
                points_in_range(refs@),
                grid.wf(refs@),
                grid.dims_in_range(),
                1 <= refs@.len() <= 0xFFFF_FFFF,
                ridx < n,
                n == rider@.len(),
                px as int == rider@[ridx as int].sx(),
                py as int == rider@[ridx as int].sy(),
                coord_in_range(px as int),
                coord_in_range(py as int),
                cell < grid.cells@.len(),
                cell as int == grid.spec_cell_of(px as int, py as int),
                forall|q: int|
                    0 <= q < 9 ==> (#[trigger] neighbors@[q]) == grid.spec_neighbor(
                        cell as int,
                        q,
                    ),
                forall|q: int| 0 <= q < 9 ==> (#[trigger] neighbors@[q]) < grid.cells@.len(),
                k <= 9,
                0 <= best_d2,
                best_idx < refs@.len(),
                (best_d2 as int, best_idx) == best_from(
                    refs@,
                    cands_upto(*grid, cell as int, k as int),
                    px as int,
                    py as int,
                    i64::MAX as int,
                    0u32,
                ),
            decreases 9 - k,
        {
            let nb = neighbors[k];
            let start = grid.cells[nb].start;
            let count = grid.cells[nb].count;
            proof {
                crate::model::grid::lemma_cell_slice_in_bounds(grid, nb as int);
                assert(cands_upto(*grid, cell as int, k as int + 1) == cands_upto(
                    *grid,
                    cell as int,
                    k as int,
                ) + bucket_seq(*grid, nb as int));
            }
            if count > 0 {
                let ghost prefix = cands_upto(*grid, cell as int, k as int);
                let ghost bucket = bucket_seq(*grid, nb as int);
                proof {
                    assert(forall|p: int|
                        0 <= p < bucket.len() ==> (#[trigger] bucket[p]) == grid.indices@[
                        grid.cells@[nb as int].start + p]);
                    assert(forall|p: int|
                        0 <= p < bucket.len() ==> (#[trigger] bucket[p]) < refs@.len());
                }
                let r = min_distance(px, py, refs, &grid.indices, start, count);
                let d2 = r.0;
                let idx = r.1;
                proof {
                    lemma_best_from_append(
                        refs@,
                        prefix,
                        bucket,
                        px as int,
                        py as int,
                        i64::MAX as int,
                        0u32,
                    );
                    lemma_best_from_acc(
                        refs@,
                        bucket,
                        px as int,
                        py as int,
                        best_d2 as int,
                        best_idx,
                    );
                    lemma_best_from_valid(
                        refs@,
                        bucket,
                        px as int,
                        py as int,
                        i64::MAX as int,
                        0u32,
                    );
                    assert(bucket =~= grid.indices@.subrange(
                        start as int,
                        start + count,
                    ));
                }
                if d2 < best_d2 {
                    best_d2 = d2;
                    best_idx = idx;
                    proof {
                        if idx != 0u32 {
                            let m = choose|m: int|
                                0 <= m < bucket.len() && (#[trigger] bucket[m]) == idx && dist2(
                                    px as int,
                                    py as int,
                                    refs@[bucket[m] as int].sx(),
                                    refs@[bucket[m] as int].sy(),
                                ) == d2 as int;
                            assert(bucket[m] < refs@.len());
                        }
                    }
                }
            } else {
                proof {
                    assert(bucket_seq(*grid, nb as int) =~= Seq::<u32>::empty());
                    assert(cands_upto(*grid, cell as int, k as int + 1) =~= cands_upto(
                        *grid,
                        cell as int,
                        k as int,
                    ));
                }
            }
            k += 1;
        }

        // Monotonic-progress clamp against the index chosen one step
        // earlier.
        let chosen: u32 = if ridx > 0 {
            let prev = out[ridx - 1].reference_index;
            if (best_idx as u64) + (cc as u64) < prev as u64 {
                prev
            } else {
                best_idx
            }
        } else {
            best_idx
        };

        // Directional metric over the two step vectors.
        let mut dir_sim: i64 = 0;
        if ridx >= 1 && chosen >= 1 {
            let ux: i64 = refs[chosen as usize].x() - refs[(chosen - 1) as usize].x();
            let uy: i64 = refs[chosen as usize].y() - refs[(chosen - 1) as usize].y();
            let vx: i64 = rider[ridx].x() - rider[ridx - 1].x();
            let vy: i64 = rider[ridx].y() - rider[ridx - 1].y();
            proof {
                assert(-4_000_000_000_000_000_000 <= (ux as int) * (vx as int)
                    <= 4_000_000_000_000_000_000) by (nonlinear_arith)
                    requires
                        -2_000_000_000 <= ux <= 2_000_000_000,
                        -2_000_000_000 <= vx <= 2_000_000_000,
                ;
                assert(-4_000_000_000_000_000_000 <= (uy as int) * (vy as int)
                    <= 4_000_000_000_000_000_000) by (nonlinear_arith)
                    requires
                        -2_000_000_000 <= uy <= 2_000_000_000,
                        -2_000_000_000 <= vy <= 2_000_000_000,
                ;
                assert(0 <= (ux as int) * (ux as int) <= 4_000_000_000_000_000_000)
                    by (nonlinear_arith)
                    requires
                        -2_000_000_000 <= ux <= 2_000_000_000,
                ;
                assert(0 <= (uy as int) * (uy as int) <= 4_000_000_000_000_000_000)
                    by (nonlinear_arith)
                    requires
                        -2_000_000_000 <= uy <= 2_000_000_000,
                ;
                assert(0 <= (vx as int) * (vx as int) <= 4_000_000_000_000_000_000)
                    by (nonlinear_arith)
                    requires
                        -2_000_000_000 <= vx <= 2_000_000_000,
                ;
                assert(0 <= (vy as int) * (vy as int) <= 4_000_000_000_000_000_000)
                    by (nonlinear_arith)
                    requires
                        -2_000_000_000 <= vy <= 2_000_000_000,
                ;
            }
            let dot: i64 = ux * vx + uy * vy;
            let mag2: i128 = (ux as i128) * (ux as i128) + (uy as i128) * (uy as i128) + (
            vx as i128) * (vx as i128) + (vy as i128) * (vy as i128);
            let mag: u64 = isqrt(mag2 as u64);
            if mag > 0 {
                if dot >= 0 {
                    let q: u64 = (dot as u64) / mag;
                    proof {
                        vstd::arithmetic::div_mod::lemma_div_is_ordered(
                            q as int,
                            dot as int,
                            1,
                        );
                        assert(q as int <= dot as int) by (nonlinear_arith)
                            requires
                                q as int == (dot as int) / (mag as int),
                                mag >= 1,
                                dot >= 0,
                        ;
                    }
                    dir_sim = q as i64;
                } else {
                    let neg: i64 = -dot;
                    let q: u64 = (neg as u64) / mag;
                    proof {
                        assert(q as int <= neg as int) by (nonlinear_arith)
                            requires
                                q as int == (neg as int) / (mag as int),
                                mag >= 1,
                                neg >= 0,
                        ;
                    }
                    dir_sim = -(q as i64);
                }
            }
        }

        // The recorded distance is the pre-clamp minimum.
        proof {
            assert((best_d2 as u64) as int == best_d2 as int);
            let rt = sqrt_floor(best_d2 as nat);
            crate::math::lemma_sqrt_floor_bounds(best_d2 as nat);
            if rt >= 3_037_000_500 {
                assert(rt * rt >= 3_037_000_500 * 3_037_000_500) by (nonlinear_arith)
                    requires
                        rt >= 3_037_000_500,
                ;
            }
            assert(rt < 3_037_000_500);
        }
        let lateral: i64 = isqrt(best_d2 as u64) as i64;
        let dz: i64 = rider[ridx].z() - refs[chosen as usize].z();
        let mp = MatchPoint {
            reference_index: chosen,
            delta_ms: rider[ridx].delta_ms(),
            direction_similarity: dir_sim,
            lateral,
            distance_z: dz,
            count_to_error: false,
        };
        proof {
            let ghost_prev: u32 = if ridx == 0 {
                0u32
            } else {
                out@[ridx as int - 1].reference_index
            };
            assert(mp == spec_match_at(rider@, refs@, *grid, cc, ridx as int, ghost_prev));
            assert(out@.push(mp) == snap_prefix(rider@, refs@, *grid, cc, ridx as int + 1));
        }
        out.push(mp);
        ridx += 1;
    }
}


/// The matched prefix over `n` points has `n` entries.
pub proof fn lemma_snap_prefix_len<T: Point, U: Point>(
    rider: Seq<T>,
    refs: Seq<U>,
    grid: Grid,
    cc: u32,
    n: int,
)
    ensures
        snap_prefix(rider, refs, grid, cc, n).len() == if n <= 0 {
            0int
        } else {
            n
        },
    decreases n,
{
    if n > 0 {
        lemma_snap_prefix_len(rider, refs, grid, cc, n - 1);
    }
}

/// Each entry of the matched prefix is the match of its own step.
pub proof fn lemma_snap_prefix_index<T: Point, U: Point>(
    rider: Seq<T>,
    refs: Seq<U>,
    grid: Grid,
    cc: u32,
    n: int,
    j: int,
)
    requires
        0 <= j < n,
    ensures
        snap_prefix(rider, refs, grid, cc, n).len() == n,
        snap_prefix(rider, refs, grid, cc, n)[j] == spec_match_at(
            rider,
            refs,
            grid,
            cc,
            j,
            if j == 0 {
                0u32
            } else {
                snap_prefix(rider, refs, grid, cc, n)[j - 1].reference_index
            },
        ),
    decreases n,
{
    if n > 0 {
        if j < n - 1 {
            lemma_snap_prefix_index(rider, refs, grid, cc, n - 1, j);
            if j > 0 {
                lemma_snap_prefix_index(rider, refs, grid, cc, n - 1, j - 1);
            }
        } else if j == n - 1 && j > 0 {
            lemma_snap_prefix_index(rider, refs, grid, cc, n - 1, j - 1);
        }
    }
}

/// Every neighbourhood entry is a cell of the grid.
pub proof fn lemma_neighbor_range(grid: Grid, cell: int, k: int)
    requires
        grid.cells_partition(),
        0 <= cell < grid.cells@.len(),
        0 <= k < 9,
    ensures
        0 <= grid.spec_neighbor(cell, k) < grid.cells@.len(),
{
    let w = grid.width as int;
    let h = grid.height as int;
    lemma_cell_coords(w, h, cell);
    let x = cell % w;
    let y = cell / w;
    let nx = x + (k % 3) - 1;
    let ny = y + (k / 3) - 1;
    if 0 <= nx < w && 0 <= ny < h {
        lemma_cell_in_grid(w, h, nx, ny);
    }
}

/// Every candidate of a cell's Moore neighbourhood is a reference
/// index.
pub proof fn lemma_cands_valid<U: Point>(refs: Seq<U>, grid: Grid, cell: int, k: int)
    requires
        grid.wf(refs),
        0 <= cell < grid.cells@.len(),
        0 <= k <= 9,
    ensures
        forall|m: int|
            0 <= m < cands_upto(grid, cell, k).len() ==> (#[trigger] cands_upto(grid, cell, k)[m])
                < refs.len(),
    decreases k,
{
    if k > 0 {
        lemma_cands_valid(refs, grid, cell, k - 1);
        lemma_neighbor_range(grid, cell, k - 1);
        let nb = grid.spec_neighbor(cell, k - 1);
        lemma_cell_slice_in_bounds(&grid, nb);
        let pre = cands_upto(grid, cell, k - 1);
        let bucket = bucket_seq(grid, nb);
        assert forall|m: int|
            0 <= m < cands_upto(grid, cell, k).len() implies (#[trigger] cands_upto(
            grid,
            cell,
            k,
        )[m]) < refs.len() by {
            if m < pre.len() {
                assert(cands_upto(grid, cell, k)[m] == pre[m]);
            } else {
                assert(cands_upto(grid, cell, k)[m] == bucket[m - pre.len()]);
                assert(bucket[m - pre.len()] == grid.indices@[grid.cells@[nb].start + (m
                    - pre.len())]);
            }
        }
    }
}

/// Every chosen reference index of a matched prefix is a reference
/// vertex.
pub proof fn lemma_snap_prefix_valid<T: Point, U: Point>(
    rider: Seq<T>,
    refs: Seq<U>,
    grid: Grid,
    cc: u32,
    n: int,
)
    requires
        points_in_range(rider),
        points_in_range(refs),
        grid.wf(refs),
        grid.dims_in_range(),
        1 <= refs.len(),
        n <= rider.len(),
    ensures
        forall|q: int|
            0 <= q < n ==> (#[trigger] snap_prefix(rider, refs, grid, cc, n)[q].reference_index)
                < refs.len(),
    decreases n,
{
    if n > 0 {
        lemma_snap_prefix_valid(rider, refs, grid, cc, n - 1);
        let j = n - 1;
        let cell = grid.spec_cell_of(rider[j].sx(), rider[j].sy());
        crate::model::grid::lemma_cell_of_range(
            grid.min_x as int,
            grid.min_y as int,
            grid.cell_size as int,
            grid.width as int,
            grid.height as int,
            rider[j].sx(),
            rider[j].sy(),
        );
        lemma_cands_valid(refs, grid, cell, 9);
        lemma_best_from_valid(
            refs,
            candidates_of(grid, cell),
            rider[j].sx(),
            rider[j].sy(),
            i64::MAX as int,
            0u32,
        );
        let cands = candidates_of(grid, cell);
        let best = best_from(refs, cands, rider[j].sx(), rider[j].sy(), i64::MAX as int, 0u32);
        if best != (i64::MAX as int, 0u32) {
            assert(exists|m: int|
                0 <= m < cands.len() && (#[trigger] cands[m]) == best.1 && dist2(
                    rider[j].sx(),
                    rider[j].sy(),
                    refs[cands[m] as int].sx(),
                    refs[cands[m] as int].sy(),
                ) == best.0);
            let m = choose|m: int|
                0 <= m < cands.len() && (#[trigger] cands[m]) == best.1 && dist2(
                    rider[j].sx(),
                    rider[j].sy(),
                    refs[cands[m] as int].sx(),
                    refs[cands[m] as int].sy(),
                ) == best.0;
            assert(cands[m] < refs.len());
        }
        assert(spec_best_at(rider, refs, grid, j) == best);
        assert(best.1 < refs.len());
        assert forall|q: int|
            0 <= q < n implies (#[trigger] snap_prefix(rider, refs, grid, cc, n)[q].reference_index)
            < refs.len() by {
            let pre = snap_prefix(rider, refs, grid, cc, n - 1);
            lemma_snap_prefix_len(rider, refs, grid, cc, n - 1);
            let prev = if n == 1 {
                0u32
            } else {
                pre[n - 2].reference_index
            };
            assert(snap_prefix(rider, refs, grid, cc, n) == pre.push(
                spec_match_at(rider, refs, grid, cc, n - 1, prev),
            ));
            if q < n - 1 {
                assert(snap_prefix(rider, refs, grid, cc, n)[q] == pre[q]);
            } else {
                if n >= 2 {
                    assert(pre[n - 2].reference_index < refs.len());
                }
                assert(prev < refs.len());
                assert(snap_prefix(rider, refs, grid, cc, n)[q] == spec_match_at(
                    rider,
                    refs,
                    grid,
                    cc,
                    n - 1,
                    prev,
                ));
            }
        }
    }
}

/// Monotonic progress: a snap never falls more than the continuity
/// clamp behind the previous snap, and when the clamp fires the
/// previous index is kept exactly.
pub proof fn lemma_monotonic_progress<T: Point, U: Point>(
    rider: Seq<T>,
    refs: Seq<U>,
    grid: Grid,
    cc: u32,
    j: int,
)
    requires
        0 < j < rider.len(),
    ensures
        snap_prefix(rider, refs, grid, cc, rider.len() as int)[j].reference_index as int
            + cc as int >= snap_prefix(rider, refs, grid, cc, rider.len() as int)[j
            - 1].reference_index as int,
        (spec_best_at(rider, refs, grid, j).1 as int + cc as int) < (snap_prefix(
            rider,
            refs,
            grid,
            cc,
            rider.len() as int,
        )[j - 1].reference_index as int) ==> snap_prefix(
            rider,
            refs,
            grid,
            cc,
            rider.len() as int,
        )[j].reference_index == snap_prefix(rider, refs, grid, cc, rider.len() as int)[j
            - 1].reference_index,
{
    let n = rider.len() as int;
    lemma_snap_prefix_index(rider, refs, grid, cc, n, j);
    lemma_snap_prefix_index(rider, refs, grid, cc, n, j - 1);
}

/// Snap optimality: with a continuity clamp wider than the reference
/// track, the chosen index is a candidate of the point's Moore
/// neighbourhood at minimum squared distance among all of them.
pub proof fn lemma_snap_optimality<T: Point, U: Point>(
    rider: Seq<T>,
    refs: Seq<U>,
    grid: Grid,
    cc: u32,
    j: int,
)
    requires
        points_in_range(rider),
        points_in_range(refs),
        grid.wf(refs),
        grid.dims_in_range(),
        1 <= refs.len(),
        cc as int > refs.len(),
        0 <= j < rider.len(),
    ensures
        ({
            let s = snap_prefix(rider, refs, grid, cc, rider.len() as int);
            let cands = candidates_of(grid, grid.spec_cell_of(rider[j].sx(), rider[j].sy()));
            &&& (cands.len() > 0 ==> exists|m: int|
                0 <= m < cands.len() && (#[trigger] cands[m]) == s[j].reference_index)
            &&& forall|m: int|
                0 <= m < cands.len() ==> dist2(
                    rider[j].sx(),
                    rider[j].sy(),
                    refs[s[j].reference_index as int].sx(),
                    refs[s[j].reference_index as int].sy(),
                ) <= dist2(
                    rider[j].sx(),
                    rider[j].sy(),
                    refs[(#[trigger] cands[m]) as int].sx(),
                    refs[cands[m] as int].sy(),
                )
        }),
{
    let n = rider.len() as int;
    let s = snap_prefix(rider, refs, grid, cc, n);
    let cell = grid.spec_cell_of(rider[j].sx(), rider[j].sy());
    let cands = candidates_of(grid, cell);
    crate::model::grid::lemma_cell_of_range(
        grid.min_x as int,
        grid.min_y as int,
        grid.cell_size as int,
        grid.width as int,
        grid.height as int,
        rider[j].sx(),
        rider[j].sy(),
    );
    lemma_cands_valid(refs, grid, cell, 9);
    lemma_best_from_valid(refs, cands, rider[j].sx(), rider[j].sy(), i64::MAX as int, 0u32);
    lemma_snap_prefix_index(rider, refs, grid, cc, n, j);
    lemma_snap_prefix_valid(rider, refs, grid, cc, n);
    let best = spec_best_at(rider, refs, grid, j);
    if j > 0 {
        assert(s[j - 1].reference_index < refs.len());
        assert(best.1 as int + cc as int >= cc as int);
    }
    assert(s[j].reference_index == best.1);
    if cands.len() > 0 {
        crate::math::lemma_dist2_bounds(
            rider[j].sx(),
            rider[j].sy(),
            refs[cands[0] as int].sx(),
            refs[cands[0] as int].sy(),
        );
        assert(dist2(
            rider[j].sx(),
            rider[j].sy(),
            refs[cands[0] as int].sx(),
            refs[cands[0] as int].sy(),
        ) < i64::MAX as int);
        assert(best.0 <= dist2(
            rider[j].sx(),
            rider[j].sy(),
            refs[cands[0] as int].sx(),
            refs[cands[0] as int].sy(),
        ));
        assert(best != (i64::MAX as int, 0u32) ==> exists|m: int|
            0 <= m < cands.len() && (#[trigger] cands[m]) == best.1 && dist2(
                rider[j].sx(),
                rider[j].sy(),
                refs[cands[m] as int].sx(),
                refs[cands[m] as int].sy(),
            ) == best.0);
    }
}

} // verus!
