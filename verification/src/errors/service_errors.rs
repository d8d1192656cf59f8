//! Failures of the track processing services.

use vstd::prelude::*;
use vstd::string::StringExecFns;
use crate::errors::io_errors::IOError;

verus! {

/// A structured service failure.
#[derive(Clone, Debug)]
#[non_exhaustive]
pub struct ServiceError {
    pub etype: ServiceErrorType,
}

#[derive(Debug, Clone)]
pub enum ServiceErrorType {
    /// Origin CRS, destination CRS, original point, reason.
    CoordinateConversionError(String, String, String, String),
    /// Wrapped input failure.
    IOError(IOError),
    /// Reason.
    InvalidData(String),
    EmptyTrack(),
    /// Reason.
    TrackSnappingError(String),
}

impl ServiceError {
    pub fn coordinate_conversion(
        origin: &str,
        destination: &str,
        original_coordinate: &str,
        reason: &str,
    ) -> (e: Self)
        ensures
            e.etype matches ServiceErrorType::CoordinateConversionError(o, d, p, r) && o@
                == origin@ && d@ == destination@ && p@ == original_coordinate@ && r@ == reason@,
    {
        ServiceError {
            etype: ServiceErrorType::CoordinateConversionError(
                String::from_str(origin),
                String::from_str(destination),
                String::from_str(original_coordinate),
                String::from_str(reason),
            ),
        }
    }

    pub fn io_error(io_error: IOError) -> (e: Self)
        ensures
            e.etype matches ServiceErrorType::IOError(inner) && inner == io_error,
    {
        ServiceError { etype: ServiceErrorType::IOError(io_error) }
    }

    pub fn invalid_data(reason: &str) -> (e: Self)
        ensures
            e.etype matches ServiceErrorType::InvalidData(r) && r@ == reason@,
    {
        ServiceError { etype: ServiceErrorType::InvalidData(String::from_str(reason)) }
    }

    pub fn empty_track() -> (e: Self)
        ensures
            e.etype matches ServiceErrorType::EmptyTrack(),
    {
        ServiceError { etype: ServiceErrorType::EmptyTrack() }
    }

    pub fn track_snapping_error(reason: &str) -> (e: Self)
        ensures
            e.etype matches ServiceErrorType::TrackSnappingError(r) && r@ == reason@,
    {
        ServiceError { etype: ServiceErrorType::TrackSnappingError(String::from_str(reason)) }
    }
}

} // verus!
