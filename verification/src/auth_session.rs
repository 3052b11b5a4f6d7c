use vstd::prelude::*;

use crate::clock::unix_now_secs;

verus! {

/// The client's authentication state.
#[derive(Debug)]
pub struct AuthSession {
    pub token: Option<String>,
    pub expires_at: Option<i64>,
    pub username: Option<String>,
}

/// Authenticated at Unix time `now`: a token whose expiry is still ahead.
pub open spec fn authenticated_at(s: AuthSession, now: i64) -> bool {
    s.token is Some && (s.expires_at matches Some(exp) && exp > now)
}

impl Default for AuthSession {
    fn default() -> (s: Self)
        ensures
            s.token.is_none(),
            s.expires_at.is_none(),
            s.username.is_none(),
    {
        AuthSession { token: None, expires_at: None, username: None }
    }
}

impl AuthSession {
    /// An empty session.
    pub fn new() -> (s: Self)
        ensures
            s.token.is_none(),
            s.expires_at.is_none(),
            s.username.is_none(),
    {
        AuthSession { token: None, expires_at: None, username: None }
    }

    /// Stores a new token, its expiry (Unix seconds) and the user's name.
    pub fn set_token(&mut self, token: String, expires_at: i64, username: String)
        ensures
            final(self).token == Some(token),
            final(self).expires_at == Some(expires_at),
            final(self).username == Some(username),
    {
        self.token = Some(token);
        self.expires_at = Some(expires_at);
        self.username = Some(username);
    }

    /// Whether the session holds a token not yet expired at Unix time `now`.
    pub fn is_authenticated_at(&self, now: i64) -> (r: bool)
        ensures
            r == authenticated_at(*self, now),
    {
        match (&self.token, self.expires_at) {
            (Some(_), Some(exp)) => exp > now,
            _ => false,
        }
    }

    /// Whether the session holds a token not yet expired by the system clock.
    /// Without a token or an expiry it never is.
    pub fn is_authenticated(&self) -> (r: bool)
        ensures
            r ==> self.token is Some && self.expires_at is Some,
            r ==> exists|now: i64| authenticated_at(*self, now),
            exists|now: i64| r == authenticated_at(*self, now),
    {
        let now = unix_now_secs();
        self.is_authenticated_at(now)
    }

    /// Forgets the token, its expiry and the user.
    pub fn clear(&mut self)
        ensures
            final(self).token.is_none(),
            final(self).expires_at.is_none(),
            final(self).username.is_none(),
    {
        self.token = None;
        self.expires_at = None;
        self.username = None;
    }
}

} // verus!
