//! Failures of track file input, as reported by the track loader.

use vstd::prelude::*;
use vstd::string::StringExecFns;

verus! {

/// A structured input failure, tagged with its source.
#[derive(Clone, Debug)]
#[non_exhaustive]
pub struct IOError {
    pub source: String,
    pub etype: IOErrorType,
}

#[derive(Debug, Clone)]
pub enum IOErrorType {
    /// Reason.
    XmlReaderFail(String),
    /// Reason.
    XmlParsingFail(String),
    /// Reason.
    FormatNotSupported(String),
    /// Reason.
    InvalidPath(String),
}

impl IOError {
    pub fn xml_reader(source: &str, reason: &str) -> (e: Self)
        ensures
            e.source@ == source@,
            e.etype matches IOErrorType::XmlReaderFail(r) && r@ == reason@,
    {
        IOError {
            etype: IOErrorType::XmlReaderFail(String::from_str(reason)),
            source: String::from_str(source),
        }
    }

    pub fn xml_parser(source: &str, reason: &str) -> (e: Self)
        ensures
            e.source@ == source@,
            e.etype matches IOErrorType::XmlParsingFail(r) && r@ == reason@,
    {
        IOError {
            source: String::from_str(source),
            etype: IOErrorType::XmlParsingFail(String::from_str(reason)),
        }
    }

    pub fn format_not_supported(source: &str, reason: &str) -> (e: Self)
        ensures
            e.source@ == source@,
            e.etype matches IOErrorType::FormatNotSupported(r) && r@ == reason@,
    {
        IOError {
            source: String::from_str(source),
            etype: IOErrorType::FormatNotSupported(String::from_str(reason)),
        }
    }

    pub fn invalid_path(source: &str, reason: &str) -> (e: Self)
        ensures
            e.source@ == source@,
            e.etype matches IOErrorType::InvalidPath(r) && r@ == reason@,
    {
        IOError {
            source: String::from_str(source),
            etype: IOErrorType::InvalidPath(String::from_str(reason)),
        }
    }
}

} // verus!
