//! OAuth provider identities and the user-info shapes the providers
//! return.

use vstd::prelude::*;
use vstd::string::StrSliceExecFns;
use crate::errors::domain_error::{DomainError, DomainErrorKind};

verus! {

#[derive(Debug, Copy, Clone, PartialEq, Eq, Structural, Hash)]
pub enum OAuthProvider {
    Google,
    GitHub,
}

impl OAuthProvider {
    /// The provider's lower-case name.
    pub fn name(&self) -> (r: &'static str)
        ensures
            *self == OAuthProvider::Google ==> r@ == "google"@,
            *self == OAuthProvider::GitHub ==> r@ == "github"@,
    {
        match self {
            OAuthProvider::Google => "google",
            OAuthProvider::GitHub => "github",
        }
    }

    /// Resolves a provider from its exact lower-case name; any other
    /// value is rejected.
    pub fn try_from_name(value: &str) -> (r: Result<OAuthProvider, DomainError>)
        ensures
            match r {
                Result::Ok(p) => (value@ == "google"@ && p == OAuthProvider::Google) || (value@
                    == "github"@ && p == OAuthProvider::GitHub),
                Result::Err(e) => {
                    &&& value@ != "google"@
                    &&& value@ != "github"@
                    &&& e.kind matches DomainErrorKind::IllegalDataFormat(f, _) && f@
                        == "provider"@
                },
            },
    {
        proof {
            reveal_strlit("google");
            reveal_strlit("github");
        }
        if str_exact_eq(value, "google") {
            Result::Ok(OAuthProvider::Google)
        } else if str_exact_eq(value, "github") {
            Result::Ok(OAuthProvider::GitHub)
        } else {
            Result::Err(
                DomainError::illegal_data_format(
                    "provider",
                    "the provider is not in the known list of providers",
                ),
            )
        }
    }
}

/// Exact character-for-character string equality.
fn str_exact_eq(a: &str, b: &str) -> (r: bool)
    ensures
        r == (a@ == b@),
{
    let na = a.unicode_len();
    let nb = b.unicode_len();
    if na != nb {
        proof {
            assert(a@ != b@);
        }
        return false;
    }
    let mut i: usize = 0;
    while i < na
        invariant
            na == a@.len(),
            nb == b@.len(),
            na == nb,
            i <= na,
            forall|j: int| 0 <= j < i ==> a@[j] == b@[j],
        decreases na - i,
    {
        let ca = a.get_char(i);
        let cb = b.get_char(i);
        if ca != cb {
            return false;
        }
        i += 1;
    }
    proof {
        assert(a@ =~= b@);
    }
    true
}

/// Normalised user info returned from any OAuth provider.
#[derive(Debug)]
pub struct ProviderUserInfo {
    pub provider_user_id: String,
    pub email: Option<String>,
    pub name: Option<String>,
    pub avatar_url: Option<String>,
}

/// Google's userinfo endpoint response.
#[derive(Debug)]
pub struct GoogleUserInfo {
    pub id: String,
    pub email: Option<String>,
    pub name: Option<String>,
    pub picture: Option<String>,
}

/// GitHub's user endpoint response.
#[derive(Debug)]
pub struct GitHubUserInfo {
    pub id: i64,
    pub login: String,
    pub name: Option<String>,
    pub email: Option<String>,
    pub avatar_url: Option<String>,
}

/// Callback data given by validation with OAuth services.
#[derive(Debug)]
pub struct OAuthCallback {
    pub code: Option<String>,
    pub state: Option<String>,
    pub error: Option<String>,
}

} // verus!
