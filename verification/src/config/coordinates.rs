//! The pair of coordinate reference systems a projection runs
//! between.

use vstd::prelude::*;

verus! {

/// Source and destination CRS names of a projection, opaque strings
/// resolved by the projection service.
#[derive(Clone, Debug)]
pub struct CoordinatesConfig {
    origin_space: String,
    destination_space: String,
}

impl CoordinatesConfig {
    pub closed spec fn spec_origin_space(&self) -> Seq<char> {
        self.origin_space@
    }

    pub closed spec fn spec_destination_space(&self) -> Seq<char> {
        self.destination_space@
    }

    pub fn new(origin_space: String, destination_space: String) -> (c: Self)
        ensures
            c.spec_origin_space() == origin_space@,
            c.spec_destination_space() == destination_space@,
    {
        CoordinatesConfig { origin_space, destination_space }
    }

    pub fn get_origin_space(&self) -> (r: &String)
        ensures
            r@ == self.spec_origin_space(),
    {
        &self.origin_space
    }

    pub fn get_destination_space(&self) -> (r: &String)
        ensures
            r@ == self.spec_destination_space(),
    {
        &self.destination_space
    }
}

} // verus!
