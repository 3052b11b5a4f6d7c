use vstd::prelude::*;
use vstd::string::StringSliceAdditionalSpecFns;

verus! {

/// Draws a fresh random version-4 UUID and returns its 128-bit value.
///
/// Wraps `uuid::Uuid::new_v4` (then `Uuid::as_u128`). The value is random, so
/// nothing is claimed of it beyond the version nibble that `new_v4` always sets.
#[verifier::external_body]
fn fresh_uuid_v4() -> (r: u128)
    ensures
        (r >> 76u128) & 0xfu128 == 4,
{
    uuid::Uuid::new_v4().as_u128()
}

/// Identity of a player: the 128-bit value of a UUID.
#[derive(Clone, Copy, Debug, PartialEq, Eq, Structural, Hash)]
pub struct PlayerId(pub u128);

/// Identity of a game room: the 128-bit value of a UUID.
#[derive(Clone, Copy, Debug, PartialEq, Eq, Structural, Hash)]
pub struct RoomId(pub u128);

/// Identity of a connection session: the 128-bit value of a UUID.
#[derive(Clone, Copy, Debug, PartialEq, Eq, Structural, Hash)]
pub struct SessionId(pub u128);

/// A random bit (the low bit of a fresh version-4 UUID).
pub fn random_bit() -> (b: u8)
    ensures
        b < 2,
{
    let v = fresh_uuid_v4();
    if v & 1 == 1 {
        1
    } else {
        0
    }
}

/// What `uuid::Uuid::parse_str` gives for a text, as the 128-bit value: it
/// depends on the text alone.
pub uninterp spec fn uuid_value(text: Seq<char>) -> Option<u128>;

/// Parses a UUID in one of its text forms (`uuid::Uuid::parse_str`, then
/// `as_u128`); `None` when the text is not one. The result is named
/// `uuid_value`. As the parser's source shows, only texts of 32, 36, 38 or 45
/// bytes can parse.
#[verifier::external_body]
fn parse_uuid(text: &str) -> (r: Option<u128>)
    ensures
        r == uuid_value(text@),
        r is Some ==> {
            let n = text.spec_bytes().len();
            n == 32 || n == 36 || n == 38 || n == 45
        },
{
    match uuid::Uuid::parse_str(text) {
        Ok(u) => Some(u.as_u128()),
        Err(_) => None,
    }
}

/// A random 64-bit seed (the high half of a fresh version-4 UUID).
pub fn random_u64() -> (r: u64) {
    let v = fresh_uuid_v4();
    (v >> 64u128) as u64
}

impl PlayerId {
    /// A new random player identity (UUID v4).
    pub fn new() -> (r: Self)
        ensures
            (r.0 >> 76u128) & 0xfu128 == 4,
    {
        PlayerId(fresh_uuid_v4())
    }

    /// The player identity written as `text`, if it is a UUID.
    pub fn parse(text: &str) -> (r: Option<PlayerId>)
        ensures
            r == match uuid_value(text@) {
                Some(v) => Some(PlayerId(v)),
                None => None,
            },
            r is Some ==> {
                let n = text.spec_bytes().len();
                n == 32 || n == 36 || n == 38 || n == 45
            },
    {
        match parse_uuid(text) {
            Some(v) => Some(PlayerId(v)),
            None => None,
        }
    }
}

impl RoomId {
    /// A new random room identity (UUID v4).
    pub fn new() -> (r: Self)
        ensures
            (r.0 >> 76u128) & 0xfu128 == 4,
    {
        RoomId(fresh_uuid_v4())
    }
}

impl SessionId {
    /// A new random session identity (UUID v4).
    pub fn new() -> (r: Self)
        ensures
            (r.0 >> 76u128) & 0xfu128 == 4,
    {
        SessionId(fresh_uuid_v4())
    }
}

/// The games offered by the platform.
#[derive(Clone, Copy, Debug, PartialEq, Eq, Structural, Hash)]
pub enum GameType {
    TicTacToe,
    Connect4,
    Checkers,
    Chess,
    Snake,
    BlockBreaker,
    Pacman,
}

/// The human-readable name of each game type.
pub open spec fn game_type_name(g: GameType) -> Seq<char> {
    match g {
        GameType::TicTacToe => "Tic-Tac-Toe"@,
        GameType::Connect4 => "Connect 4"@,
        GameType::Checkers => "Checkers"@,
        GameType::Chess => "Chess"@,
        GameType::Snake => "Snake"@,
        GameType::BlockBreaker => "Block Breaker"@,
        GameType::Pacman => "Pacman"@,
    }
}

impl GameType {
    /// The display name of the game ("Tic-Tac-Toe", "Connect 4", ...).
    pub fn display_name(&self) -> (r: &'static str)
        ensures
            r@ == game_type_name(*self),
    {
        match self {
            GameType::TicTacToe => "Tic-Tac-Toe",
            GameType::Connect4 => "Connect 4",
            GameType::Checkers => "Checkers",
            GameType::Chess => "Chess",
            GameType::Snake => "Snake",
            GameType::BlockBreaker => "Block Breaker",
            GameType::Pacman => "Pacman",
        }
    }
}

/// Bot strength.
#[derive(Clone, Copy, Debug, PartialEq, Eq, Structural, Hash)]
pub enum Difficulty {
    Easy,
    Hard,
}

/// Settings a room (or a solo game) is created with.
#[derive(Clone, Copy, Debug, PartialEq, Eq, Structural)]
pub struct GameSettings {
    pub difficulty: Option<Difficulty>,
    pub max_players: u8,
    pub turn_timeout_secs: Option<u64>,
    /// Seed for games with deterministic randomness (Snake); `None` derives one.
    pub seed: Option<u64>,
}

impl GameSettings {
    /// The default settings: two players, a 60 s turn timeout, no difficulty, no seed.
    pub fn default() -> (r: Self)
        ensures
            r == (GameSettings {
                difficulty: None,
                max_players: 2,
                turn_timeout_secs: Some(60),
                seed: None,
            }),
    {
        GameSettings { difficulty: None, max_players: 2, turn_timeout_secs: Some(60), seed: None }
    }
}

/// A player as shown to others: identity and name.
#[derive(Clone, Debug)]
pub struct PlayerInfo {
    pub id: PlayerId,
    pub username: String,
}

impl PlayerInfo {
    /// A copy of the player's identity and name.
    pub fn copy(&self) -> (r: PlayerInfo)
        ensures
            r == *self,
    {
        PlayerInfo { id: self.id, username: self.username.clone() }
    }
}

/// How a finished game ended.
#[derive(Clone, Copy, Debug, PartialEq, Eq, Structural)]
pub enum GameOutcome {
    Win(PlayerId),
    Draw,
}

/// Lifecycle of a room.
#[derive(Clone, Copy, Debug, PartialEq, Eq, Structural)]
pub enum RoomState {
    Waiting,
    InProgress,
    Finished,
}

} // verus!
