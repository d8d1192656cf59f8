//! Tuning of the snapper.

use vstd::prelude::*;

verus! {

/// How many reference indices a snap may fall back behind the
/// previous match before the previous index is forced.
#[derive(Clone, Copy, Debug, PartialEq, Eq, Structural)]
pub struct SnappingConfig {
    continuity_clamp: u32,
}

impl SnappingConfig {
    pub closed spec fn spec_continuity_clamp(&self) -> u32 {
        self.continuity_clamp
    }

    pub fn new(continuity_clamp: u32) -> (c: Self)
        ensures
            c.spec_continuity_clamp() == continuity_clamp,
    {
        SnappingConfig { continuity_clamp }
    }

    pub fn get_continuity_clamp(&self) -> (r: u32)
        ensures
            r == self.spec_continuity_clamp(),
    {
        self.continuity_clamp
    }
}

} // verus!
