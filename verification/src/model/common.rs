//! Track pieces shared by reference and rider tracks.

use vstd::prelude::*;
use crate::model::points::SpatialPoint;

verus! {

/// The single projected point that anchors the local planar frame of
/// a reference track and of every rider track matched against it.
/// Absolute planar coordinates in the destination CRS, millimetres.
#[derive(Clone, Copy, Debug, PartialEq, Eq, Structural)]
pub struct TrackOrigin {
    pub epsg_x: i64,
    pub epsg_y: i64,
}

/// A parsed GPX track: geographic samples in document order plus the
/// start timestamp in milliseconds since the Unix epoch.
#[derive(Debug)]
pub struct SpatialTrack {
    pub track: Vec<SpatialPoint>,
    pub start_time_ms: i64,
}

} // verus!
