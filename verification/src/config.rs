pub mod analysis;
pub mod coordinates;
pub mod rider;
pub mod snapping;
