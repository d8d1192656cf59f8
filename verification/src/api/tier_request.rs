//! Request shapes of the tier endpoints.

use vstd::prelude::*;

verus! {

/// A request for one tier by name.
pub struct GetTierRequest {
    pub name: String,
}

/// A request to create a tier.
pub struct CreateTierRequest {
    pub name: String,
    pub max_tracks: i32,
}

} // verus!
