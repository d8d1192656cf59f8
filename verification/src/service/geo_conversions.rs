//! Building reference and rider tracks from projected planar
//! samples: anchoring at the track origin and accumulating arc
//! length.

use vstd::prelude::*;
use crate::errors::service_errors::{ServiceError, ServiceErrorType};
use crate::math::{coord_in_range, dist2, dist2_exec, isqrt, lemma_dist2_bounds, sqrt_floor};
use crate::model::common::TrackOrigin;
use crate::model::points::{PlanarSample, RefPoint, RiderPoint};

verus! {

/// Elevation of a sample, metres zero when absent.
pub open spec fn elev_or_zero(p: PlanarSample) -> int {
    match p.elev {
        Option::Some(e) => e as int,
        Option::None => 0,
    }
}

/// Time offset of a sample, zero when absent.
pub open spec fn delta_or_zero(p: PlanarSample) -> int {
    match p.delta_ms {
        Option::Some(d) => d as int,
        Option::None => 0,
    }
}

/// Every sample lies within the admitted range around the first
/// sample, both planar offsets and elevation.
pub open spec fn samples_in_range(s: Seq<PlanarSample>, ox: int, oy: int) -> bool {
    forall|i: int|
        0 <= i < s.len() ==> coord_in_range((#[trigger] s[i]).x - ox) && coord_in_range(
            s[i].y - oy,
        ) && coord_in_range(elev_or_zero(s[i]))
}

/// Cumulative planar arc length from the first sample to sample `i`,
/// each segment measured by the floor square root of its squared
/// length.
pub open spec fn total_distance_of(s: Seq<PlanarSample>, i: int) -> int
    decreases i,
{
    if i <= 0 {
        0
    } else {
        total_distance_of(s, i - 1) + sqrt_floor(
            dist2(s[i].x as int, s[i].y as int, s[i - 1].x as int, s[i - 1].y as int) as nat,
        )
    }
}

/// The reference vertices built from a projected sample sequence:
/// offsets from the first sample, elevation or zero, and cumulative
/// arc length.
pub open spec fn ref_points_of(s: Seq<PlanarSample>) -> Seq<RefPoint> {
    Seq::new(
        s.len(),
        |i: int|
            RefPoint {
                x: (s[i].x - s[0].x) as i64,
                y: (s[i].y - s[0].y) as i64,
                z: elev_or_zero(s[i]) as i64,
                total_distance: total_distance_of(s, i) as i64,
            },
    )
}

/// The rider vertices built from a projected sample sequence and a
/// track origin: offsets from the origin, elevation or zero, and the
/// sample's time offset or zero.
pub open spec fn rider_points_of(s: Seq<PlanarSample>, ox: int, oy: int) -> Seq<RiderPoint> {
    Seq::new(
        s.len(),
        |i: int|
            RiderPoint {
                x: (s[i].x - ox) as i64,
                y: (s[i].y - oy) as i64,
                z: elev_or_zero(s[i]) as i64,
                delta_ms: delta_or_zero(s[i]) as i64,
            },
    )
}

/// Arc length never decreases along the prefix, and each step adds
/// one segment.
pub proof fn lemma_total_distance_monotone(s: Seq<PlanarSample>, i: int)
    requires
        0 <= i,
    ensures
        total_distance_of(s, i) >= 0,
        forall|j: int| 0 <= j <= i ==> #[trigger] total_distance_of(s, j) <= total_distance_of(s, i),
    decreases i,
{
    if i > 0 {
        lemma_total_distance_monotone(s, i - 1);
    }
}


/// Arc length grows by less than three kilometres per vertex, for
/// samples within the admitted range.
pub proof fn lemma_total_distance_bound(s: Seq<PlanarSample>, i: int)
    requires
        samples_in_range(s, s[0].x as int, s[0].y as int),
        0 <= i < s.len(),
    ensures
        0 <= total_distance_of(s, i) <= i * 3_000_000_000,
    decreases i,
{
    if i > 0 {
        lemma_total_distance_bound(s, i - 1);
        lemma_dist2_bounds(
            s[i].x - s[0].x as int,
            s[i].y - s[0].y as int,
            s[i - 1].x - s[0].x as int,
            s[i - 1].y - s[0].y as int,
        );
        assert(dist2(s[i].x as int, s[i].y as int, s[i - 1].x as int, s[i - 1].y as int) == dist2(
            s[i].x - s[0].x as int,
            s[i].y - s[0].y as int,
            s[i - 1].x - s[0].x as int,
            s[i - 1].y - s[0].y as int,
        ));
        let d2 = dist2(s[i].x as int, s[i].y as int, s[i - 1].x as int, s[i - 1].y as int);
        let rt = sqrt_floor(d2 as nat);
        crate::math::lemma_sqrt_floor_bounds(d2 as nat);
        assert(rt < 3_000_000_000) by (nonlinear_arith)
            requires
                rt * rt <= 8_000_000_000_000_000_000,
        ;
    }
}

/// The track origin of a projected sample sequence: its first
/// sample's absolute planar position. Fails exactly on an empty
/// sequence.
pub fn get_track_origin(planar: &Vec<PlanarSample>) -> (r: Result<TrackOrigin, ServiceError>)
    ensures
        match r {
            Result::Ok(o) => {
                &&& planar@.len() > 0
                &&& o.epsg_x == planar@[0].x
                &&& o.epsg_y == planar@[0].y
            },
            Result::Err(e) => {
                &&& planar@.len() == 0
                &&& e.etype matches ServiceErrorType::EmptyTrack()
            },
        },
{
    if planar.len() == 0 {
        return Result::Err(ServiceError::empty_track());
    }
    let first = planar[0];
    Result::Ok(TrackOrigin { epsg_x: first.x, epsg_y: first.y })
}

/// Builds the reference vertex sequence from projected samples: the
/// first sample becomes the track origin, every vertex is its offset
/// from the origin, and the cumulative planar arc length is measured
/// vertex by vertex. Fails exactly on an empty input.
pub fn spatial_to_reference(planar: &Vec<PlanarSample>) -> (r: Result<
    (TrackOrigin, Vec<RefPoint>),
    ServiceError,
>)
    requires
        planar@.len() <= 1_000_000_000,
        planar@.len() > 0 ==> samples_in_range(planar@, planar@[0].x as int, planar@[0].y as int),
    ensures
        match r {
            Result::Ok(p) => {
                &&& planar@.len() > 0
                &&& p.0.epsg_x == planar@[0].x
                &&& p.0.epsg_y == planar@[0].y
                &&& p.1@ == ref_points_of(planar@)
                &&& p.1@.len() == planar@.len()
                &&& p.1@[0].total_distance == 0
                &&& forall|i: int|
                    0 < i < p.1@.len() ==> (#[trigger] p.1@[i].total_distance)
                        >= p.1@[i - 1].total_distance
            },
            Result::Err(e) => {
                &&& planar@.len() == 0
                &&& e.etype matches ServiceErrorType::EmptyTrack()
            },
        },
{
    if planar.len() == 0 {
        return Result::Err(ServiceError::empty_track());
    }
    let ghost gs = planar@;
    let ghost target = ref_points_of(gs);
    let n = planar.len();
    let first = planar[0];
    let origin = TrackOrigin { epsg_x: first.x, epsg_y: first.y };
    let mut pts: Vec<RefPoint> = Vec::new();
    let mut total: i64 = 0;
    let mut i: usize = 0;
    while i < n
        invariant
            n == gs.len(),
            gs == planar@,
            1 <= n <= 1_000_000_000,
            samples_in_range(gs, gs[0].x as int, gs[0].y as int),
            target == ref_points_of(gs),
            first == gs[0],
            i <= n,
            pts@.len() == i,
            total as int == total_distance_of(
                gs,
                if i == 0 {
                    0int
                } else {
                    i - 1
                },
            ),
            0 <= total as int <= i * 3_000_000_000,
            forall|j: int| 0 <= j < i ==> (#[trigger] pts@[j]) == target[j],
        decreases n - i,
    {
        let p = planar[i];
        if i > 0 {
            let q = planar[i - 1];
            proof {
                assert(coord_in_range(gs[i as int].x - gs[0].x as int));
                assert(coord_in_range(gs[i as int - 1].x - gs[0].x as int));
                assert(coord_in_range(gs[i as int].y - gs[0].y as int));
                assert(coord_in_range(gs[i as int - 1].y - gs[0].y as int));
            }
            proof {
                lemma_dist2_bounds(
                    p.x - first.x,
                    p.y - first.y,
                    q.x - first.x,
                    q.y - first.y,
                );
                assert(dist2(p.x as int, p.y as int, q.x as int, q.y as int) == dist2(
                    p.x - first.x,
                    p.y - first.y,
                    q.x - first.x,
                    q.y - first.y,
                ));
                let rt = sqrt_floor(
                    dist2(p.x as int, p.y as int, q.x as int, q.y as int) as nat,
                );
                crate::math::lemma_sqrt_floor_bounds(
                    dist2(p.x as int, p.y as int, q.x as int, q.y as int) as nat,
                );
                assert(rt < 3_000_000_000) by (nonlinear_arith)
                    requires
                        rt * rt <= 8_000_000_000_000_000_000,
                ;
            }
            let ox: i64 = p.x - first.x;
            let oy: i64 = p.y - first.y;
            let qx: i64 = q.x - first.x;
            let qy: i64 = q.y - first.y;
            let d2 = dist2_exec(ox, oy, qx, qy);
            let seg = isqrt(d2 as u64);
            proof {
                assert(seg as int == sqrt_floor(
                    dist2(
                        gs[i as int].x as int,
                        gs[i as int].y as int,
                        gs[i as int - 1].x as int,
                        gs[i as int - 1].y as int,
                    ) as nat,
                ));
            }
            total = total + seg as i64;
            proof {
                assert(total as int == total_distance_of(gs, i as int));
            }
        }
        let z: i64 = match p.elev {
            Option::Some(e) => e,
            Option::None => 0,
        };
        pts.push(RefPoint { x: p.x - first.x, y: p.y - first.y, z, total_distance: total });
        proof {
            assert(pts@[i as int] == target[i as int]);
        }
        i += 1;
    }
    proof {
        assert(pts@ =~= target);
        lemma_total_distance_monotone(gs, n as int);
        assert forall|i2: int|
            0 < i2 < target.len() implies (#[trigger] target[i2].total_distance)
            >= target[i2 - 1].total_distance by {
            lemma_total_distance_monotone(gs, i2);
            lemma_total_distance_bound(gs, i2);
            lemma_total_distance_bound(gs, i2 - 1);
        }
    }
    Result::Ok((origin, pts))
}

/// Whether the time offsets of a sample sequence, absent offsets read
/// as zero, never decrease.
pub open spec fn deltas_monotone(s: Seq<PlanarSample>) -> bool {
    forall|i: int| 0 < i < s.len() ==> delta_or_zero(s[i - 1]) <= #[trigger] delta_or_zero(s[i])
}

/// Builds the rider vertex sequence from projected samples and the
/// reference's track origin: every vertex is its offset from the
/// origin with the sample's time offset. Fails exactly on an empty
/// input. Keeps the time offsets in order whenever the input's are.
pub fn spatial_to_rider(planar: &Vec<PlanarSample>, track_origin: &TrackOrigin) -> (r: Result<
    Vec<RiderPoint>,
    ServiceError,
>)
    requires
        samples_in_range(planar@, track_origin.epsg_x as int, track_origin.epsg_y as int),
    ensures
        match r {
            Result::Ok(pts) => {
                &&& planar@.len() > 0
                &&& pts@ == rider_points_of(
                    planar@,
                    track_origin.epsg_x as int,
                    track_origin.epsg_y as int,
                )
                &&& pts@.len() == planar@.len()
                &&& (deltas_monotone(planar@) ==> forall|i: int|
                    0 < i < pts@.len() ==> (#[trigger] pts@[i].delta_ms) >= pts@[i - 1].delta_ms)
            },
            Result::Err(e) => {
                &&& planar@.len() == 0
                &&& e.etype matches ServiceErrorType::EmptyTrack()
            },
        },
{
    if planar.len() == 0 {
        return Result::Err(ServiceError::empty_track());
    }
    let ghost gs = planar@;
    let ghost target = rider_points_of(gs, track_origin.epsg_x as int, track_origin.epsg_y as int);
    let n = planar.len();
    let mut pts: Vec<RiderPoint> = Vec::new();
    let mut i: usize = 0;
    while i < n
        invariant
            n == gs.len(),
            gs == planar@,
            samples_in_range(gs, track_origin.epsg_x as int, track_origin.epsg_y as int),
            target == rider_points_of(
                gs,
                track_origin.epsg_x as int,
                track_origin.epsg_y as int,
            ),
            i <= n,
            pts@.len() == i,
            forall|j: int| 0 <= j < i ==> (#[trigger] pts@[j]) == target[j],
        decreases n - i,
    {
        let p = planar[i];
        proof {
            assert(coord_in_range(gs[i as int].x - track_origin.epsg_x as int));
            assert(coord_in_range(gs[i as int].y - track_origin.epsg_y as int));
        }
        let z: i64 = match p.elev {
            Option::Some(e) => e,
            Option::None => 0,
        };
        let delta_ms: i64 = match p.delta_ms {
            Option::Some(d) => d,
            Option::None => 0,
        };
        pts.push(
            RiderPoint { x: p.x - track_origin.epsg_x, y: p.y - track_origin.epsg_y, z, delta_ms },
        );
        proof {
            assert(pts@[i as int] == target[i as int]);
        }
        i += 1;
    }
    proof {
        assert(pts@ =~= target);
    }
    Result::Ok(pts)
}

/// Building a reference track is deterministic: two builds from
/// identical projected inputs yield identical origins and identical
/// vertex sequences.
pub proof fn lemma_reference_build_deterministic(
    s1: Seq<PlanarSample>,
    s2: Seq<PlanarSample>,
    o1: TrackOrigin,
    o2: TrackOrigin,
    p1: Seq<RefPoint>,
    p2: Seq<RefPoint>,
)
    requires
        s1 == s2,
        s1.len() > 0,
        o1.epsg_x as int == s1[0].x,
        o1.epsg_y as int == s1[0].y,
        o2.epsg_x as int == s2[0].x,
        o2.epsg_y as int == s2[0].y,
        p1 == ref_points_of(s1),
        p2 == ref_points_of(s2),
    ensures
        o1 == o2,
        p1 == p2,
{
}

} // verus!
