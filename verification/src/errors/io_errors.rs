//! Failures of track input and record handling.

use vstd::prelude::*;
use vstd::string::StringExecFns;
use crate::errors::domain_error::DomainError;

verus! {

/// A structured input failure, tagged with its source.
#[derive(Clone, Debug)]
#[non_exhaustive]
pub struct IOError {
    pub source: String,
    pub etype: IOErrorType,
}

#[derive(Debug, Clone)]
pub enum IOErrorType {
    /// Reason.
    XmlReaderFail(String),
    /// Reason.
    XmlParsingFail(String),
    /// Reason.
    FormatNotSupported(String),
    /// Reason.
    InvalidPath(String),
    /// Reason.
    RecordNotFound(String),
    /// Reason.
    RecordOperation(String),
    /// Wrapped validation failure.
    DomainError(DomainError),
    /// Reason.
    StreamError(String),
}

impl IOError {
    pub fn xml_reader(source: &str, reason: &str) -> (e: Self)
        ensures
            e.source@ == source@,
            e.etype matches IOErrorType::XmlReaderFail(r) && r@ == reason@,
    {
        IOError {
            etype: IOErrorType::XmlReaderFail(String::from_str(reason)),
            source: String::from_str(source),
        }
    }

    pub fn xml_parser(source: &str, reason: &str) -> (e: Self)
        ensures
            e.source@ == source@,
            e.etype matches IOErrorType::XmlParsingFail(r) && r@ == reason@,
    {
        IOError {
            source: String::from_str(source),
            etype: IOErrorType::XmlParsingFail(String::from_str(reason)),
        }
    }

    pub fn format_not_supported(source: &str, reason: &str) -> (e: Self)
        ensures
            e.source@ == source@,
            e.etype matches IOErrorType::FormatNotSupported(r) && r@ == reason@,
    {
        IOError {
            source: String::from_str(source),
            etype: IOErrorType::FormatNotSupported(String::from_str(reason)),
        }
    }

    pub fn invalid_path(source: &str, reason: &str) -> (e: Self)
        ensures
            e.source@ == source@,
            e.etype matches IOErrorType::InvalidPath(r) && r@ == reason@,
    {
        IOError {
            source: String::from_str(source),
            etype: IOErrorType::InvalidPath(String::from_str(reason)),
        }
    }

    pub fn record_not_fround(source: &str, reason: &str) -> (e: Self)
        ensures
            e.source@ == source@,
            e.etype matches IOErrorType::RecordNotFound(r) && r@ == reason@,
    {
        IOError {
            source: String::from_str(source),
            etype: IOErrorType::RecordNotFound(String::from_str(reason)),
        }
    }

    pub fn record_operation(source: &str, reason: &str) -> (e: Self)
        ensures
            e.source@ == source@,
            e.etype matches IOErrorType::RecordOperation(r) && r@ == reason@,
    {
        IOError {
            source: String::from_str(source),
            etype: IOErrorType::RecordOperation(String::from_str(reason)),
        }
    }

    pub fn domain_error(source: &str, reason: DomainError) -> (e: Self)
        ensures
            e.source@ == source@,
            e.etype matches IOErrorType::DomainError(d) && d == reason,
    {
        IOError { source: String::from_str(source), etype: IOErrorType::DomainError(reason) }
    }

    pub fn stream_error(source: &str, reason: &str) -> (e: Self)
        ensures
            e.source@ == source@,
            e.etype matches IOErrorType::StreamError(r) && r@ == reason@,
    {
        IOError {
            source: String::from_str(source),
            etype: IOErrorType::StreamError(String::from_str(reason)),
        }
    }
}

} // verus!
