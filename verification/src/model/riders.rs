//! Rider tracks and the matched tracks produced by snapping.

use vstd::prelude::*;
use crate::model::common::TrackOrigin;
use crate::model::points::{MatchPoint, RiderPoint, points_in_range};

verus! {

/// A rider's polyline in the local planar frame of a reference track,
/// with per-point time offsets.
#[derive(Clone, Debug)]
pub struct RiderTrack {
    /// The rider's identifier, the 128 bits of their UUID.
    pub rider_uuid: u128,
    pub variant: u32,
    pub projection: String,
    /// Milliseconds since the Unix epoch.
    pub start_time_ms: i64,
    pub track_origin: TrackOrigin,
    pub track: Vec<RiderPoint>,
}

impl RiderTrack {
    /// Every vertex is in the admitted coordinate range and the time
    /// offsets never decrease.
    pub open spec fn wf(&self) -> bool {
        &&& points_in_range(self.track@)
        &&& forall|i: int|
            0 < i < self.track@.len() ==> (#[trigger] self.track@[i].delta_ms)
                >= self.track@[i - 1].delta_ms
    }
}

/// The result of snapping one rider track onto a reference track.
#[derive(Clone, Debug)]
pub struct MatchedTrack {
    /// The matched rider's identifier, the 128 bits of their UUID.
    pub bound_uuid: u128,
    pub variant: u32,
    pub projection: String,
    /// Milliseconds since the Unix epoch.
    pub start_time_ms: i64,
    pub track_origin: TrackOrigin,
    pub track: Vec<MatchPoint>,
}

} // verus!
