//! Plain informational endpoints.

use vstd::prelude::*;

verus! {

/// The service's greeting line.
pub fn system_info() -> (r: &'static str)
    ensures
        r@ == "Hello world! \n Running GPS-Analyzer v0.2.0"@,
{
    "Hello world! \n Running GPS-Analyzer v0.2.0"
}

} // verus!
