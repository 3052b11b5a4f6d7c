use game_center::handler::{handle_client_msg, Outgoing};
use game_center::lifecycle::{
    admits_connection, argon2_permits, message_size_ok, connection_opened, idle_expired, on_disconnect, outgoing_envelope, register_session,
    IDLE_TIMEOUT_SECS, MAX_CONCURRENT_CONNECTIONS,
};
use game_center::lobby::LobbyManager;
use game_center::messages::{ClientMsg, ServerMsg};
use game_center::session::Session;
use game_center::tictactoe::TicTacToeMove;
use game_center::types::{GameOutcome, GameSettings, GameType, PlayerId, SessionId};
use game_center::version::{MIN_CLIENT_VERSION, PROTOCOL_VERSION};

fn signed_in(name: &str) -> (Session, PlayerId) {
    let mut s = Session::new();
    let pid = PlayerId::new();
    s.authenticate(pid, name.to_string());
    (s, pid)
}

fn send(msg: ClientMsg, s: &mut Session, lobby: &mut LobbyManager) {
    let none: Result<TicTacToeMove, String> = Err("unused".to_string());
    handle_client_msg(&msg, &none, s, lobby);
}

#[test]
fn first_message_announces_the_version() {
    match connection_opened() {
        ServerMsg::ServerVersion { version, min_client_protocol } => {
            assert_eq!(version, "0.1.0");
            assert_eq!(min_client_protocol, MIN_CLIENT_VERSION);
        }
        other => panic!("expected ServerVersion, got {other:?}"),
    }
}

#[test]
fn envelopes_carry_the_protocol_version_and_next_seq() {
    let mut s = Session::new();
    let e1 = outgoing_envelope(&mut s, ServerMsg::Pong).unwrap();
    let e2 = outgoing_envelope(&mut s, ServerMsg::Pong).unwrap();
    assert_eq!(e1.version, PROTOCOL_VERSION);
    assert_eq!((e1.seq, e2.seq), (1, 2));
    assert!(matches!(e2.payload, ServerMsg::Pong));
    s.seq = u64::MAX;
    assert!(outgoing_envelope(&mut s, ServerMsg::Pong).is_none());
    assert_eq!(s.seq, u64::MAX);
}

#[test]
fn idle_timeout_and_connection_cap() {
    assert_eq!(IDLE_TIMEOUT_SECS, 300);
    assert!(!idle_expired(0));
    assert!(!idle_expired(300));
    assert!(idle_expired(301));
    assert_eq!(MAX_CONCURRENT_CONNECTIONS, 1024);
    assert!(admits_connection(1023));
    assert!(!admits_connection(1024));
}

#[test]
fn disconnect_without_player_changes_nothing() {
    let mut lobby = LobbyManager::new();
    let other = (PlayerId(7), SessionId(9));
    let mut registry = vec![other];
    let s = Session::new();
    let out = on_disconnect(&mut registry, &s, &mut lobby);
    assert!(out.is_empty());
    assert_eq!(registry, vec![other]);
}

#[test]
fn disconnect_mid_game_tells_the_other_player_and_awards_the_win() {
    let mut lobby = LobbyManager::new();
    let (mut a, pa) = signed_in("alice");
    let (mut b, pb) = signed_in("bob");
    send(ClientMsg::CreateRoom { game_type: GameType::TicTacToe, settings: GameSettings::default() }, &mut a, &mut lobby);
    let room = a.current_room.unwrap();
    send(ClientMsg::JoinRoom { room_id: room }, &mut b, &mut lobby);
    assert!(lobby.game_state(room).is_some());

    let mut registry = vec![(pa, a.session_id), (pb, b.session_id)];
    let out = on_disconnect(&mut registry, &a, &mut lobby);
    assert_eq!(registry, vec![(pb, b.session_id)]);
    assert_eq!(out.len(), 2);
    assert!(matches!(&out[0], (p, Outgoing::Msg(ServerMsg::PlayerLeft(l))) if *p == pb && *l == pa));
    assert!(matches!(
        &out[1],
        (p, Outgoing::Msg(ServerMsg::GameOver { outcome: GameOutcome::Win(w) })) if *p == pb && *w == pb
    ));
    assert!(lobby.game_state(room).is_none());
    assert_eq!(lobby.get_room_players(room).unwrap().len(), 1);
}

#[test]
fn disconnect_keeps_a_slot_taken_over_by_a_newer_session() {
    let mut lobby = LobbyManager::new();
    let (a, pa) = signed_in("alice");
    let newer = SessionId(a.session_id.0.wrapping_add(1));
    let mut registry = vec![(pa, newer)];
    let out = on_disconnect(&mut registry, &a, &mut lobby);
    assert!(out.is_empty());
    assert_eq!(registry, vec![(pa, newer)]);
}

#[test]
fn last_player_leaving_removes_the_room_silently() {
    let mut lobby = LobbyManager::new();
    let (mut a, pa) = signed_in("alice");
    send(ClientMsg::CreateRoom { game_type: GameType::TicTacToe, settings: GameSettings::default() }, &mut a, &mut lobby);
    let room = a.current_room.unwrap();
    let mut registry = vec![(pa, a.session_id)];
    let out = on_disconnect(&mut registry, &a, &mut lobby);
    assert!(out.is_empty());
    assert!(registry.is_empty());
    assert!(lobby.get_room_players(room).is_none());
}

#[test]
fn relogin_replaces_the_slot_and_tells_the_old_connection() {
    let pid = PlayerId(5);
    let other = (PlayerId(6), SessionId(60));
    let mut registry = vec![other];
    assert!(register_session(&mut registry, pid, SessionId(1)).is_none());
    assert_eq!(registry, vec![other, (pid, SessionId(1))]);
    // Same session again: nothing to tell.
    assert!(register_session(&mut registry, pid, SessionId(1)).is_none());
    assert_eq!(registry, vec![other, (pid, SessionId(1))]);
    // A new connection takes the slot; the old one is told.
    match register_session(&mut registry, pid, SessionId(2)) {
        Some((to, ServerMsg::Error { code, message })) => {
            assert_eq!(to, SessionId(1));
            assert_eq!(code, 409);
            assert_eq!(message, "session replaced by another login");
        }
        other => panic!("expected a 409 notice, got {other:?}"),
    }
    assert_eq!(registry, vec![other, (pid, SessionId(2))]);
    // The old connection ending leaves the new slot alone.
    let mut old = Session::new();
    old.authenticate(pid, "alice".to_string());
    old.session_id = SessionId(1);
    let mut lobby = LobbyManager::new();
    assert!(on_disconnect(&mut registry, &old, &mut lobby).is_empty());
    assert_eq!(registry, vec![other, (pid, SessionId(2))]);
}

#[test]
fn payload_cap_and_hashing_slots() {
    assert!(message_size_ok(65536));
    assert!(!message_size_ok(65537));
    assert_eq!(argon2_permits(None), 2);
    assert_eq!(argon2_permits(Some(1)), 2);
    assert_eq!(argon2_permits(Some(4)), 2);
    assert_eq!(argon2_permits(Some(16)), 8);
}
