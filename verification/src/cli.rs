//! Plain configuration values of the command-line client, and the
//! pure decisions of the login flow: which identity server to use and
//! which endpoints to call on it. The client's network work stays
//! outside the library.

use vstd::prelude::*;

verus! {

/// Login settings: the client identifier, an optional identity-server
/// override, and the server root to discover one from otherwise.
#[derive(Debug)]
pub struct Login {
    pub oidc_client_id: String,
    pub oidc_server_url: Option<String>,
    pub trustify_server_url: String,
}

impl Login {
    /// The identity server must be discovered from the server root
    /// exactly when no override was given.
    pub fn needs_discovery(&self) -> (r: bool)
        ensures
            r == (self.oidc_server_url is None),
    {
        self.oidc_server_url.is_none()
    }
}

/// Logout takes no settings.
#[derive(Debug)]
pub struct Logout;

/// Scan settings: an input location and an optional output location.
#[derive(Debug)]
pub struct Scan {
    pub input: String,
    pub output: Option<String>,
}

/// The client's subcommands.
#[derive(Debug)]
pub enum Command {
    Login(Login),
    Logout(Logout),
    Scan(Scan),
}

/// The client invocation: one subcommand.
#[derive(Debug)]
pub struct Run {
    pub command: Command,
}

/// The device-authorization endpoint of an identity server.
pub fn device_auth_endpoint(base: &str) -> (r: String)
    ensures
        r@ == base@ + "/protocol/openid-connect/auth/device"@,
{
    let mut s = base.to_owned();
    s.append("/protocol/openid-connect/auth/device");
    s
}

/// The token endpoint of an identity server.
pub fn token_endpoint(base: &str) -> (r: String)
    ensures
        r@ == base@ + "/protocol/openid-connect/token"@,
{
    let mut s = base.to_owned();
    s.append("/protocol/openid-connect/token");
    s
}

} // verus!
