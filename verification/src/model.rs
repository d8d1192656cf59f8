pub mod analysis;
pub mod common;
pub mod grid;
pub mod points;
pub mod reference;
pub mod riders;
