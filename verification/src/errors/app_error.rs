//! The application-level failure type and its mapping to HTTP status
//! codes.

use vstd::prelude::*;
use vstd::string::StringExecFns;
use crate::errors::domain_error::DomainError;
use crate::errors::io_errors::{IOError, IOErrorType};
use crate::errors::service_errors::{ServiceError, ServiceErrorType};

verus! {

/// A structured application failure.
#[derive(Clone, Debug)]
#[non_exhaustive]
pub struct AppError {
    pub etype: AppErrorType,
}

#[derive(Debug, Clone)]
pub enum AppErrorType {
    DomainError(DomainError),
    IOError(IOError),
    ServiceError(ServiceError),
    /// Reason.
    AuthError(String),
    JWT(String),
    InvalidToken,
    /// Reason.
    OAuth2(String),
    TokenRevoked,
}

impl AppError {
    pub fn io_error(io_error: IOError) -> (e: Self)
        ensures
            e.etype matches AppErrorType::IOError(inner) && inner == io_error,
    {
        AppError { etype: AppErrorType::IOError(io_error) }
    }

    pub fn service_error(service_error: ServiceError) -> (e: Self)
        ensures
            e.etype matches AppErrorType::ServiceError(inner) && inner == service_error,
    {
        AppError { etype: AppErrorType::ServiceError(service_error) }
    }

    pub fn domain_error(domain_error: DomainError) -> (e: Self)
        ensures
            e.etype matches AppErrorType::DomainError(inner) && inner == domain_error,
    {
        AppError { etype: AppErrorType::DomainError(domain_error) }
    }

    pub fn auth_error(reason: &str) -> (e: Self)
        ensures
            e.etype matches AppErrorType::AuthError(r) && r@ == reason@,
    {
        AppError { etype: AppErrorType::AuthError(String::from_str(reason)) }
    }

    pub fn jwt(reason: &str) -> (e: Self)
        ensures
            e.etype matches AppErrorType::JWT(r) && r@ == reason@,
    {
        AppError { etype: AppErrorType::JWT(String::from_str(reason)) }
    }

    pub fn invalid_token() -> (e: Self)
        ensures
            e.etype matches AppErrorType::InvalidToken,
    {
        AppError { etype: AppErrorType::InvalidToken }
    }

    pub fn oauth2(reason: &str) -> (e: Self)
        ensures
            e.etype matches AppErrorType::OAuth2(r) && r@ == reason@,
    {
        AppError { etype: AppErrorType::OAuth2(String::from_str(reason)) }
    }

    pub fn token_revoked() -> (e: Self)
        ensures
            e.etype matches AppErrorType::TokenRevoked,
    {
        AppError { etype: AppErrorType::TokenRevoked }
    }

    /// The HTTP status code this failure is reported with.
    pub fn status_code(&self) -> (code: u16)
        ensures
            code == spec_status_code(self.etype),
    {
        match &self.etype {
            AppErrorType::DomainError(_) => 400,
            AppErrorType::IOError(io_error) => map_io_to_status_code(&io_error.etype),
            AppErrorType::ServiceError(service_error) => match &service_error.etype {
                ServiceErrorType::CoordinateConversionError(_, _, _, _) => 500,
                ServiceErrorType::EmptyTrack() => 400,
                ServiceErrorType::IOError(err) => map_io_to_status_code(&err.etype),
                ServiceErrorType::InvalidData(_) => 400,
                ServiceErrorType::TrackSnappingError(_) => 500,
            },
            AppErrorType::AuthError(_) => 403,
            AppErrorType::JWT(_) => 401,
            AppErrorType::InvalidToken => 401,
            AppErrorType::OAuth2(_) => 424,
            AppErrorType::TokenRevoked => 401,
        }
    }
}

/// The HTTP status code of an input failure.
pub open spec fn spec_io_status_code(kind: IOErrorType) -> u16 {
    match kind {
        IOErrorType::FormatNotSupported(_) => 400,
        IOErrorType::RecordNotFound(_) => 404,
        IOErrorType::InvalidPath(_) => 400,
        IOErrorType::RecordOperation(_) => 500,
        IOErrorType::StreamError(_) => 500,
        IOErrorType::XmlParsingFail(_) => 500,
        IOErrorType::XmlReaderFail(_) => 500,
        IOErrorType::DomainError(_) => 400,
    }
}

/// The HTTP status code of an application failure.
pub open spec fn spec_status_code(kind: AppErrorType) -> u16 {
    match kind {
        AppErrorType::DomainError(_) => 400,
        AppErrorType::IOError(io_error) => spec_io_status_code(io_error.etype),
        AppErrorType::ServiceError(service_error) => match service_error.etype {
            ServiceErrorType::CoordinateConversionError(_, _, _, _) => 500,
            ServiceErrorType::EmptyTrack() => 400,
            ServiceErrorType::IOError(err) => spec_io_status_code(err.etype),
            ServiceErrorType::InvalidData(_) => 400,
            ServiceErrorType::TrackSnappingError(_) => 500,
        },
        AppErrorType::AuthError(_) => 403,
        AppErrorType::JWT(_) => 401,
        AppErrorType::InvalidToken => 401,
        AppErrorType::OAuth2(_) => 424,
        AppErrorType::TokenRevoked => 401,
    }
}

/// The HTTP status code of an input failure.
pub fn map_io_to_status_code(kind: &IOErrorType) -> (code: u16)
    ensures
        code == spec_io_status_code(*kind),
{
    match kind {
        IOErrorType::FormatNotSupported(_) => 400,
        IOErrorType::RecordNotFound(_) => 404,
        IOErrorType::InvalidPath(_) => 400,
        IOErrorType::RecordOperation(_) => 500,
        IOErrorType::StreamError(_) => 500,
        IOErrorType::XmlParsingFail(_) => 500,
        IOErrorType::XmlReaderFail(_) => 500,
        IOErrorType::DomainError(_) => 400,
    }
}

} // verus!
