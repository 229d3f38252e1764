//! Token claims and the body of a successful login.

use vstd::prelude::*;

verus! {

/// The claims of an access token: its subject (the user name) and its expiry
/// as seconds since the epoch.
pub struct Claims {
    pub sub: String,
    pub exp: usize,
}

/// The answer to a successful login.
pub struct AuthBody {
    pub access_token: String,
    pub token_type: String,
}

impl AuthBody {
    /// A bearer token body.
    pub fn new(access_token: String) -> (r: AuthBody)
        ensures
            r.access_token == access_token,
            r.token_type@ == "Bearer"@,
    {
        AuthBody { access_token, token_type: "Bearer".to_owned() }
    }
}

} // verus!
