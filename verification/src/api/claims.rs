//! Token claims carried by access and refresh tokens.

use vstd::prelude::*;

verus! {

#[derive(Debug, Clone)]
pub struct AccessClaims {
    /// Subject, the user's UUID.
    pub sub: String,
    /// Issued at (Unix timestamp).
    pub iat: i64,
    /// Expiration (Unix timestamp).
    pub exp: i64,
    /// Token type discriminant.
    pub token_type: String,
    /// OAuth provider.
    pub provider: String,
    /// User email (optional).
    pub email: Option<String>,
}

#[derive(Debug, Clone)]
pub struct RefreshClaims {
    /// Subject, the user's UUID.
    pub sub: String,
    /// Unique token ID (for revocation).
    pub jti: String,
    /// Issued at (Unix timestamp).
    pub iat: i64,
    /// Expiration (Unix timestamp).
    pub exp: i64,
    /// Token type discriminant.
    pub token_type: String,
}

} // verus!
