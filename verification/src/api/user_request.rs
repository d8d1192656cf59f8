//! Request and response shapes of the user endpoints.

use vstd::prelude::*;

verus! {

/// A request to create a user.
pub struct CreateUserRequest {
    pub name: String,
    pub email: String,
    pub tier: String,
}

/// The public shape a user is reported as.
#[derive(Debug)]
pub struct UserResponse {
    pub id: String,
    pub provider: String,
    pub email: Option<String>,
    pub name: Option<String>,
    pub avatar_url: Option<String>,
}

} // verus!
