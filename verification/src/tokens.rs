//! The claims a session token carries (its signing is the token library's).
use vstd::prelude::*;

verus! {

/// The claims of a session token: the user's id and name, and when it was
/// issued and expires (Unix seconds).
#[derive(Debug)]
pub struct Claims {
    pub sub: String,
    pub username: String,
    pub exp: i64,
    pub iat: i64,
}

/// The claims of a token issued at `now` for the user `user_id` named
/// `username`, valid for `expiry_secs` seconds.
pub fn token_claims(user_id: String, username: String, now: i64, expiry_secs: i64) -> (c: Claims)
    requires
        i64::MIN <= now + expiry_secs <= i64::MAX,
    ensures
        c.sub == user_id,
        c.username == username,
        c.iat == now,
        c.exp == now + expiry_secs,
{
    Claims { sub: user_id, username, exp: now + expiry_secs, iat: now }
}

} // verus!
