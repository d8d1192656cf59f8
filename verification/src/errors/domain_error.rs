//! Validation failures of domain data.

use vstd::prelude::*;
use vstd::string::StringExecFns;

verus! {

/// A structured validation failure.
#[derive(Clone, Debug)]
#[non_exhaustive]
pub struct DomainError {
    pub kind: DomainErrorKind,
}

#[derive(Debug, Clone)]
pub enum DomainErrorKind {
    /// Field name.
    EmptyField(String),
    /// Field name, invalid character, position.
    IllegalCharacter(String, char, usize),
    /// Field name, reason.
    IllegalDataFormat(String, String),
}

impl DomainError {
    pub fn empty_field(field_name: &str) -> (e: Self)
        ensures
            e.kind matches DomainErrorKind::EmptyField(f) && f@ == field_name@,
    {
        DomainError { kind: DomainErrorKind::EmptyField(String::from_str(field_name)) }
    }

    pub fn illegal_character(field_name: &str, illegal_char: char, position: usize) -> (e: Self)
        ensures
            e.kind matches DomainErrorKind::IllegalCharacter(f, c, p) && f@ == field_name@ && c
                == illegal_char && p == position,
    {
        DomainError {
            kind: DomainErrorKind::IllegalCharacter(
                String::from_str(field_name),
                illegal_char,
                position,
            ),
        }
    }

    pub fn illegal_data_format(field_name: &str, reason: &str) -> (e: Self)
        ensures
            e.kind matches DomainErrorKind::IllegalDataFormat(f, r) && f@ == field_name@ && r@
                == reason@,
    {
        DomainError {
            kind: DomainErrorKind::IllegalDataFormat(
                String::from_str(field_name),
                String::from_str(reason),
            ),
        }
    }
}

} // verus!
