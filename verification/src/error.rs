use vstd::prelude::*;

use crate::text::{decimal, decimal_string};

verus! {

/// The errors the platform reports.
#[derive(Clone, Debug)]
pub enum GameCenterError {
    Codec(String),
    AuthFailed(String),
    InvalidMove(String),
    Room(String),
    Connection(String),
    Database(String),
    Config(String),
    VersionMismatch { client: u8, server_min: u8 },
}

/// The human-readable text of an error.
pub open spec fn error_text(e: GameCenterError) -> Seq<char> {
    match e {
        GameCenterError::Codec(s) => "codec error: "@ + s@,
        GameCenterError::AuthFailed(s) => "authentication failed: "@ + s@,
        GameCenterError::InvalidMove(s) => "invalid move: "@ + s@,
        GameCenterError::Room(s) => "room error: "@ + s@,
        GameCenterError::Connection(s) => "connection error: "@ + s@,
        GameCenterError::Database(s) => "database error: "@ + s@,
        GameCenterError::Config(s) => "config error: "@ + s@,
        GameCenterError::VersionMismatch { client, server_min } => "protocol version mismatch: client="@
            + decimal(client as nat) + ", server_min="@ + decimal(server_min as nat),
    }
}

fn prefixed(prefix: &str, s: &String) -> (r: String)
    ensures
        r@ == prefix@ + s@,
{
    let mut r = prefix.to_owned();
    r.append(s.as_str());
    r
}

impl GameCenterError {
    /// The error's message (see `error_text`).
    pub fn message(&self) -> (r: String)
        ensures
            r@ == error_text(*self),
    {
        match self {
            GameCenterError::Codec(s) => prefixed("codec error: ", s),
            GameCenterError::AuthFailed(s) => prefixed("authentication failed: ", s),
            GameCenterError::InvalidMove(s) => prefixed("invalid move: ", s),
            GameCenterError::Room(s) => prefixed("room error: ", s),
            GameCenterError::Connection(s) => prefixed("connection error: ", s),
            GameCenterError::Database(s) => prefixed("database error: ", s),
            GameCenterError::Config(s) => prefixed("config error: ", s),
            GameCenterError::VersionMismatch { client, server_min } => {
                let mut r = "protocol version mismatch: client=".to_owned();
                let c = decimal_string(*client as u64);
                r.append(c.as_str());
                r.append(", server_min=");
                let m = decimal_string(*server_min as u64);
                r.append(m.as_str());
                r
            },
        }
    }
}

} // verus!
