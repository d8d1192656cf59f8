//! Authenticated-user values injected into request handlers once a
//! token has been verified.

use vstd::prelude::*;
use crate::api::claims::AccessClaims;

verus! {

/// The claims of a request authenticated through the access-token
/// cookie.
pub struct AuthenticatedUser(pub AccessClaims);

/// The claims of a request authenticated through either the
/// access-token cookie or a bearer token.
pub struct AuthenticatedUserFlexible(pub AccessClaims);

} // verus!
