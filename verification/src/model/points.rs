//! The point types that flow through the pipeline.
//!
//! All planar lengths are fixed-point integers in millimetres, all
//! times fixed-point integers in milliseconds, and geographic angles
//! fixed-point integers in microdegrees.

use vstd::prelude::*;
use crate::math::coord_in_range;

verus! {

/// A geographic sample as emitted by the GPX parser: longitude and
/// latitude in microdegrees, elevation in millimetres, time offset in
/// milliseconds from the track start.
#[derive(Clone, Copy, Debug, PartialEq, Eq, Structural)]
pub struct SpatialPoint {
    pub lon: i64,
    pub lat: i64,
    pub elev: Option<i64>,
    pub delta_ms: Option<i64>,
}

/// A sample projected into the destination planar CRS, still in
/// absolute planar coordinates (millimetres), before the track origin
/// is subtracted.
#[derive(Clone, Copy, Debug, PartialEq, Eq, Structural)]
pub struct PlanarSample {
    pub x: i64,
    pub y: i64,
    pub elev: Option<i64>,
    pub delta_ms: Option<i64>,
}

/// A vertex of a reference track: planar offset from the track origin
/// plus the cumulative arc length walked so far, all in millimetres.
#[derive(Clone, Copy, Debug, PartialEq, Eq, Structural)]
pub struct RefPoint {
    pub x: i64,
    pub y: i64,
    pub z: i64,
    pub total_distance: i64,
}

/// A vertex of a rider track: planar offset from the track origin in
/// millimetres plus the time offset from the first sample in
/// milliseconds.
#[derive(Clone, Copy, Debug, PartialEq, Eq, Structural)]
pub struct RiderPoint {
    pub x: i64,
    pub y: i64,
    pub z: i64,
    pub delta_ms: i64,
}

/// One snapped rider sample. `lateral` is the pre-clamp minimum
/// distance (millimetres), `direction_similarity` the directional
/// metric in millimetres, `distance_z` the signed elevation delta.
#[derive(Clone, Copy, Debug, PartialEq, Eq, Structural)]
pub struct MatchPoint {
    pub reference_index: u32,
    pub delta_ms: i64,
    pub direction_similarity: i64,
    pub lateral: i64,
    pub distance_z: i64,
    pub count_to_error: bool,
}

/// Planar access shared by reference and rider vertices, so that the
/// snapper can run in either direction.
pub trait Point: Sized {
    /// Planar x offset, millimetres.
    spec fn sx(&self) -> int;

    /// Planar y offset, millimetres.
    spec fn sy(&self) -> int;

    /// Elevation, millimetres.
    spec fn sz(&self) -> int;

    /// Time offset, milliseconds.
    spec fn sdelta(&self) -> int;

    fn x(&self) -> (r: i64)
        ensures
            r as int == self.sx(),
    ;

    fn y(&self) -> (r: i64)
        ensures
            r as int == self.sy(),
    ;

    fn z(&self) -> (r: i64)
        ensures
            r as int == self.sz(),
    ;

    fn delta_ms(&self) -> (r: i64)
        ensures
            r as int == self.sdelta(),
    ;
}

impl Point for RefPoint {
    open spec fn sx(&self) -> int {
        self.x as int
    }

    open spec fn sy(&self) -> int {
        self.y as int
    }

    open spec fn sz(&self) -> int {
        self.z as int
    }

    open spec fn sdelta(&self) -> int {
        0
    }

    fn x(&self) -> i64 {
        self.x
    }

    fn y(&self) -> i64 {
        self.y
    }

    fn z(&self) -> i64 {
        self.z
    }

    fn delta_ms(&self) -> i64 {
        0
    }
}

impl Point for RiderPoint {
    open spec fn sx(&self) -> int {
        self.x as int
    }

    open spec fn sy(&self) -> int {
        self.y as int
    }

    open spec fn sz(&self) -> int {
        self.z as int
    }

    open spec fn sdelta(&self) -> int {
        self.delta_ms as int
    }

    fn x(&self) -> i64 {
        self.x
    }

    fn y(&self) -> i64 {
        self.y
    }

    fn z(&self) -> i64 {
        self.z
    }

    fn delta_ms(&self) -> i64 {
        self.delta_ms
    }
}

/// A point whose planar offsets and elevation stay within the
/// admitted coordinate range.
pub open spec fn point_in_range<T: Point>(p: T) -> bool {
    &&& coord_in_range(p.sx())
    &&& coord_in_range(p.sy())
    &&& coord_in_range(p.sz())
}

/// Every point of the sequence is within the admitted range.
pub open spec fn points_in_range<T: Point>(s: Seq<T>) -> bool {
    forall|i: int| 0 <= i < s.len() ==> point_in_range(#[trigger] s[i])
}

} // verus!
