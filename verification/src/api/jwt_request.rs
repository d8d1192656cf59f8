//! Request and response shapes of the token endpoints.

use vstd::prelude::*;

verus! {

/// The pair of tokens issued on login or refresh.
#[derive(Debug)]
pub struct TokenResponse {
    pub access_token: String,
    pub refresh_token: String,
    pub token_type: String,
    /// Seconds until the access token expires.
    pub expires_in: u64,
}

/// A request to exchange a refresh token for new tokens.
#[derive(Debug)]
pub struct RefreshRequest {
    pub refresh_token: String,
}

/// A request to revoke a refresh token.
#[derive(Debug)]
pub struct RevokeRequest {
    pub refresh_token: String,
}

} // verus!
