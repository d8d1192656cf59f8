pub mod api;
pub mod config;
pub mod errors;
pub mod io;
pub mod math;
pub mod model;
pub mod service;
pub mod text;
