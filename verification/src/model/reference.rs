//! The canonical course geometry that rider tracks are compared
//! against.

use vstd::prelude::*;
use crate::model::common::TrackOrigin;
use crate::model::points::{RefPoint, points_in_range};

verus! {

/// An immutable reference polyline in the local planar frame, with
/// cumulative arc length per vertex.
#[derive(Clone, Debug)]
pub struct ReferenceTrack {
    pub class: String,
    pub projection: String,
    pub origin: TrackOrigin,
    pub track: Vec<RefPoint>,
}

impl ReferenceTrack {
    /// Every vertex is in the admitted coordinate range, the
    /// cumulative arc length starts at zero and never decreases.
    pub open spec fn wf(&self) -> bool {
        &&& points_in_range(self.track@)
        &&& self.track@.len() > 0 ==> self.track@[0].total_distance == 0
        &&& forall|i: int|
            0 < i < self.track@.len() ==> (#[trigger] self.track@[i].total_distance)
                >= self.track@[i - 1].total_distance
    }
}

} // verus!
