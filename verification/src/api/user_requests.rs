//! Request shapes of the legacy user endpoints.

use vstd::prelude::*;

verus! {

/// A request to create a user.
pub struct CreateUserRequest {
    pub name: String,
    pub email: String,
    pub tier: String,
}

} // verus!
