//! The application configuration: server address, application URL,
//! token secrets and OAuth client credentials.

use vstd::prelude::*;
use vstd::string::StringExecFns;

verus! {

#[derive(Clone, Debug)]
pub struct Config {
    server_host: String,
    server_port: u16,
    app_url: String,
    jwt_access_secret: String,
    jwt_refresh_secret: String,
    google_client_id: String,
    google_client_secret: String,
    github_client_id: String,
    github_client_secret: String,
}

impl Config {
    pub closed spec fn spec_server_host(&self) -> Seq<char> {
        self.server_host@
    }

    pub closed spec fn spec_server_port(&self) -> u16 {
        self.server_port
    }

    pub closed spec fn spec_app_url(&self) -> Seq<char> {
        self.app_url@
    }

    pub closed spec fn spec_jwt_access_secret(&self) -> Seq<char> {
        self.jwt_access_secret@
    }

    pub closed spec fn spec_jwt_refresh_secret(&self) -> Seq<char> {
        self.jwt_refresh_secret@
    }

    pub closed spec fn spec_google_client_id(&self) -> Seq<char> {
        self.google_client_id@
    }

    pub closed spec fn spec_google_client_secret(&self) -> Seq<char> {
        self.google_client_secret@
    }

    pub closed spec fn spec_github_client_id(&self) -> Seq<char> {
        self.github_client_id@
    }

    pub closed spec fn spec_github_client_secret(&self) -> Seq<char> {
        self.github_client_secret@
    }

    /// Builds a configuration from already-resolved values.
    pub fn new(
        server_host: String,
        server_port: u16,
        app_url: String,
        jwt_access_secret: String,
        jwt_refresh_secret: String,
        google_client_id: String,
        google_client_secret: String,
        github_client_id: String,
        github_client_secret: String,
    ) -> (c: Self)
        ensures
            c.spec_server_host() == server_host@,
            c.spec_server_port() == server_port,
            c.spec_app_url() == app_url@,
            c.spec_jwt_access_secret() == jwt_access_secret@,
            c.spec_jwt_refresh_secret() == jwt_refresh_secret@,
            c.spec_google_client_id() == google_client_id@,
            c.spec_google_client_secret() == google_client_secret@,
            c.spec_github_client_id() == github_client_id@,
            c.spec_github_client_secret() == github_client_secret@,
    {
        Config {
            server_host,
            server_port,
            app_url,
            jwt_access_secret,
            jwt_refresh_secret,
            google_client_id,
            google_client_secret,
            github_client_id,
            github_client_secret,
        }
    }

    /// The redirect URI the Google OAuth flow returns to.
    pub fn google_redirect_uri(&self) -> (r: String)
        ensures
            r@ == self.spec_app_url() + "/auth/google/callback"@,
    {
        self.app_url.clone().concat("/auth/google/callback")
    }

    /// The redirect URI the GitHub OAuth flow returns to.
    pub fn github_redirect_uri(&self) -> (r: String)
        ensures
            r@ == self.spec_app_url() + "/auth/github/callback"@,
    {
        self.app_url.clone().concat("/auth/github/callback")
    }

    pub fn get_server_host(&self) -> (r: &str)
        ensures
            r@ == self.spec_server_host(),
    {
        self.server_host.as_str()
    }

    pub fn get_server_port(&self) -> (r: u16)
        ensures
            r == self.spec_server_port(),
    {
        self.server_port
    }

    pub fn get_app_url(&self) -> (r: &str)
        ensures
            r@ == self.spec_app_url(),
    {
        self.app_url.as_str()
    }

    pub fn get_jwt_access_secret(&self) -> (r: &str)
        ensures
            r@ == self.spec_jwt_access_secret(),
    {
        self.jwt_access_secret.as_str()
    }

    pub fn get_jwt_refresh_secret(&self) -> (r: &str)
        ensures
            r@ == self.spec_jwt_refresh_secret(),
    {
        self.jwt_refresh_secret.as_str()
    }

    pub fn get_google_client_id(&self) -> (r: &str)
        ensures
            r@ == self.spec_google_client_id(),
    {
        self.google_client_id.as_str()
    }

    pub fn get_google_client_secret(&self) -> (r: &str)
        ensures
            r@ == self.spec_google_client_secret(),
    {
        self.google_client_secret.as_str()
    }

    pub fn get_github_client_id(&self) -> (r: &str)
        ensures
            r@ == self.spec_github_client_id(),
    {
        self.github_client_id.as_str()
    }

    pub fn get_github_client_secret(&self) -> (r: &str)
        ensures
            r@ == self.spec_github_client_secret(),
    {
        self.github_client_secret.as_str()
    }
}

} // verus!
