//! Tuning of the severity classifier.

use vstd::prelude::*;

verus! {

/// Thresholds of the severity classifier, lengths in millimetres.
///
/// The severity ladder divides by the incremental step rounded to
/// whole metres, so construction requires a step that rounds to at
/// least one metre.
#[derive(Clone, Copy, Debug, PartialEq, Eq, Structural)]
pub struct AnalysisConfig {
    directional_deviance: i64,
    allowed_deviance: i64,
    incremental_severity: i64,
    minimum_continuous_error: usize,
}

impl AnalysisConfig {
    pub closed spec fn spec_directional_deviance(&self) -> i64 {
        self.directional_deviance
    }

    pub closed spec fn spec_allowed_deviance(&self) -> i64 {
        self.allowed_deviance
    }

    pub closed spec fn spec_incremental_severity(&self) -> i64 {
        self.incremental_severity
    }

    pub closed spec fn spec_minimum_cont_error(&self) -> usize {
        self.minimum_continuous_error
    }

    /// A configuration the classifier accepts: positive thresholds, a
    /// directional threshold of at most one metre, a severity step
    /// that rounds to a whole number of metres of at least one, and a
    /// positive run length.
    pub open spec fn wf(&self) -> bool {
        &&& 0 < self.spec_allowed_deviance() <= 1_000_000_000
        &&& 0 < self.spec_directional_deviance() <= 1000
        &&& 500 <= self.spec_incremental_severity() <= 1_000_000_000
        &&& self.spec_minimum_cont_error() >= 1
    }

    pub fn new(
        directional_deviance: i64,
        allowed_deviance: i64,
        incremental_severity: i64,
        minimum_continuous_error: usize,
    ) -> (c: Self)
        requires
            0 < allowed_deviance <= 1_000_000_000,
            0 < directional_deviance <= 1000,
            500 <= incremental_severity <= 1_000_000_000,
            minimum_continuous_error >= 1,
        ensures
            c.wf(),
            c.spec_directional_deviance() == directional_deviance,
            c.spec_allowed_deviance() == allowed_deviance,
            c.spec_incremental_severity() == incremental_severity,
            c.spec_minimum_cont_error() == minimum_continuous_error,
    {
        AnalysisConfig {
            directional_deviance,
            allowed_deviance,
            incremental_severity,
            minimum_continuous_error,
        }
    }

    pub fn get_directional_deviance(&self) -> (r: i64)
        ensures
            r == self.spec_directional_deviance(),
    {
        self.directional_deviance
    }

    pub fn get_allowed_deviance(&self) -> (r: i64)
        ensures
            r == self.spec_allowed_deviance(),
    {
        self.allowed_deviance
    }

    pub fn get_incremental_severity(&self) -> (r: i64)
        ensures
            r == self.spec_incremental_severity(),
    {
        self.incremental_severity
    }

    pub fn get_minimum_cont_error(&self) -> (r: usize)
        ensures
            r == self.spec_minimum_cont_error(),
    {
        self.minimum_continuous_error
    }
}

} // verus!
