use vstd::prelude::*;

use crate::types::{GameOutcome, GameSettings, GameType, PlayerId, PlayerInfo, RoomId, RoomState, SessionId};

verus! {

/// Wire envelope wrapping every message.
#[derive(Clone, Debug)]
pub struct Envelope<P> {
    /// Protocol version, for compatibility checks.
    pub version: u8,
    /// Sequence number, for ordering and replay on reconnection.
    pub seq: u64,
    pub payload: P,
}

/// Messages from client to server.
#[derive(Clone, Debug)]
pub enum ClientMsg {
    Register { username: String, password: String },
    Authenticate { token: String },
    Login { username: String, password: String },
    ListRooms,
    CreateRoom { game_type: GameType, settings: GameSettings },
    JoinRoom { room_id: RoomId },
    LeaveRoom,
    /// A game action, encoded by the client and decoded by the engine.
    GameAction { data: Vec<u8> },
    Ping,
    Reconnect { session_id: SessionId, last_seq: u64 },
    RequestRematch,
    RematchResponse { accept: bool },
    CancelRematch,
}

/// Summary of a room for the lobby list.
#[derive(Clone, Debug)]
pub struct RoomSummary {
    pub id: RoomId,
    pub game_type: GameType,
    pub player_count: u8,
    pub max_players: u8,
    pub state: RoomState,
    pub host_name: String,
}

/// Messages from server to client.
#[derive(Debug)]
pub enum ServerMsg {
    AuthOk { token: String, expires_at: i64, player_id: PlayerId },
    AuthFail { reason: String },
    RoomList(Vec<RoomSummary>),
    RoomJoined { room_id: RoomId, players: Vec<PlayerInfo>, state: RoomState },
    GameStateUpdate { tick: u64, state_data: Vec<u8> },
    GameDelta { tick: u64, delta_data: Vec<u8> },
    PlayerJoined(PlayerInfo),
    PlayerLeft(PlayerId),
    GameOver { outcome: GameOutcome },
    Error { code: u16, message: String },
    Pong,
    /// Replay of the messages missed while disconnected.
    ReconnectOk { missed_messages: Vec<ServerMsg> },
    ServerVersion { version: String, min_client_protocol: u8 },
    RematchRequested,
    RematchAccepted,
    RematchDeclined,
    RematchCanceled,
    RoomGameType { room_id: RoomId, game_type: GameType },
}

} // verus!
