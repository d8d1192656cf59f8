pub mod geo_conversions;
pub mod snapping;
pub mod track_processor;
