use game_center::handler::{
    auth_accepted, auth_precheck, check_login, authenticate_token, can_start_room, handle_client_msg,
    register_store_failure, AuthKind, HandleResult, Outgoing,
};
use game_center::lobby::LobbyManager;
use game_center::messages::{ClientMsg, ServerMsg};
use game_center::password::{hash_password, verify_password};
use game_center::rate_limit::{AuthRateLimiter, MAX_ATTEMPTS};
use game_center::session::Session;
use game_center::tictactoe::TicTacToeMove;
use game_center::types::{GameOutcome, GameSettings, GameType, PlayerId, RoomState};

fn signed_in(name: &str) -> (Session, PlayerId) {
    let mut s = Session::new();
    let pid = PlayerId::new();
    s.authenticate(pid, name.to_string());
    (s, pid)
}

fn no_action() -> Result<TicTacToeMove, String> {
    Err("unused".to_string())
}

fn send(msg: ClientMsg, s: &mut Session, lobby: &mut LobbyManager) -> HandleResult {
    assert!(lobby.is_ready());
    handle_client_msg(&msg, &no_action(), s, lobby)
}

fn play(s: &mut Session, lobby: &mut LobbyManager, row: u8, col: u8) -> HandleResult {
    let msg = ClientMsg::GameAction { data: vec![row, col] };
    handle_client_msg(&msg, &Ok(TicTacToeMove { row, col }), s, lobby)
}

fn error_of(r: &HandleResult) -> (u16, String) {
    match &r.response {
        Some(Outgoing::Msg(ServerMsg::Error { code, message })) => (*code, message.clone()),
        other => panic!("expected an error, got {other:?}"),
    }
}

#[test]
fn ping_and_unauthenticated_requests() {
    let mut lobby = LobbyManager::new();
    let mut s = Session::new();
    let r = send(ClientMsg::Ping, &mut s, &mut lobby);
    assert!(matches!(r.response, Some(Outgoing::Msg(ServerMsg::Pong))));
    for msg in [ClientMsg::ListRooms, ClientMsg::LeaveRoom, ClientMsg::RequestRematch] {
        let r = send(msg, &mut s, &mut lobby);
        match r.response {
            Some(Outgoing::Msg(ServerMsg::AuthFail { reason })) => assert_eq!(reason, "not authenticated"),
            other => panic!("expected AuthFail, got {other:?}"),
        }
        assert!(r.broadcasts.is_empty());
    }
    let (mut a, _) = signed_in("alice");
    let r = send(ClientMsg::Reconnect { session_id: a.session_id, last_seq: 0 }, &mut a, &mut lobby);
    assert_eq!(error_of(&r), (501, "not yet implemented".to_string()));
}

#[test]
fn create_join_play_and_finish() {
    let mut lobby = LobbyManager::new();
    let (mut a, pa) = signed_in("alice");
    let (mut b, pb) = signed_in("bob");

    let r = send(
        ClientMsg::CreateRoom { game_type: GameType::TicTacToe, settings: GameSettings::default() },
        &mut a,
        &mut lobby,
    );
    let room_id = match r.response {
        Some(Outgoing::Msg(ServerMsg::RoomJoined { room_id, players, state })) => {
            assert_eq!(players.len(), 1);
            assert_eq!(players[0].username, "alice");
            assert_eq!(state, RoomState::Waiting);
            room_id
        }
        other => panic!("expected RoomJoined, got {other:?}"),
    };
    assert_eq!(a.current_room, Some(room_id));
    assert_eq!(r.broadcasts.len(), 1);
    assert!(matches!(
        r.broadcasts[0],
        (p, Outgoing::Msg(ServerMsg::RoomGameType { game_type: GameType::TicTacToe, .. })) if p == pa
    ));

    let r = send(ClientMsg::JoinRoom { room_id }, &mut b, &mut lobby);
    match &r.response {
        Some(Outgoing::Msg(ServerMsg::RoomJoined { players, state, .. })) => {
            assert_eq!(players.len(), 2);
            assert_eq!(*state, RoomState::InProgress);
        }
        other => panic!("expected RoomJoined, got {other:?}"),
    }
    // alice hears of bob, bob learns the game type, both get the start state.
    assert_eq!(r.broadcasts.len(), 4);
    assert!(matches!(&r.broadcasts[0], (p, Outgoing::Msg(ServerMsg::PlayerJoined(info))) if *p == pa && info.id == pb));
    assert!(matches!(&r.broadcasts[1], (p, Outgoing::Msg(ServerMsg::RoomGameType { .. })) if *p == pb));
    assert!(matches!(&r.broadcasts[2], (_, Outgoing::GameState { tick: 0, .. })));
    assert!(matches!(&r.broadcasts[3], (_, Outgoing::GameState { tick: 0, .. })));

    // Whoever moves first plays the top row while the other plays the middle row.
    let lobby_game = lobby.game_state(room_id).unwrap();
    let first = match lobby_game {
        game_center::turn_based::GameState::TicTacToe(st) => st.players[0],
    };
    let (x, o) = if first == pa { (&mut a, &mut b) } else { (&mut b, &mut a) };
    let r = play(o, &mut lobby, 0, 0);
    assert_eq!(error_of(&r), (400, "not your turn".to_string()));
    for (row, col, x_turn) in [(0u8, 0u8, true), (1, 0, false), (0, 1, true), (1, 1, false)] {
        let who: &mut Session = if x_turn { &mut *x } else { &mut *o };
        let r = play(who, &mut lobby, row, col);
        assert!(matches!(r.response, Some(Outgoing::GameState { .. })));
        assert_eq!(r.broadcasts.len(), 1);
    }
    let r = play(x, &mut lobby, 0, 2);
    assert_eq!(r.broadcasts.len(), 3);
    assert!(matches!(
        &r.broadcasts[1],
        (_, Outgoing::Msg(ServerMsg::GameOver { outcome: GameOutcome::Win(w) })) if *w == first
    ));
    assert!(lobby.game_state(room_id).is_none());
    assert_eq!(lobby.list_rooms()[0].state, RoomState::Finished);
    let r = play(o, &mut lobby, 2, 2);
    assert_eq!(error_of(&r), (400, "no active game in this room".to_string()));
}

#[test]
fn game_action_guards() {
    let mut lobby = LobbyManager::new();
    let (mut a, _) = signed_in("alice");
    let big = ClientMsg::GameAction { data: vec![0; 4097] };
    let r = handle_client_msg(&big, &no_action(), &mut a, &mut lobby);
    assert_eq!(error_of(&r), (413, "game action too large".to_string()));
    let r = play(&mut a, &mut lobby, 0, 0);
    assert_eq!(error_of(&r), (400, "not in a room".to_string()));
    let mut anon = Session::new();
    let r = play(&mut anon, &mut lobby, 0, 0);
    assert!(matches!(r.response, Some(Outgoing::Msg(ServerMsg::AuthFail { .. }))));
}

#[test]
fn undecodable_move_is_reported() {
    let mut lobby = LobbyManager::new();
    let (mut a, _) = signed_in("alice");
    let (mut b, _) = signed_in("bob");
    let r = send(
        ClientMsg::CreateRoom { game_type: GameType::TicTacToe, settings: GameSettings::default() },
        &mut a,
        &mut lobby,
    );
    let room_id = match r.response {
        Some(Outgoing::Msg(ServerMsg::RoomJoined { room_id, .. })) => room_id,
        other => panic!("expected RoomJoined, got {other:?}"),
    };
    send(ClientMsg::JoinRoom { room_id }, &mut b, &mut lobby);
    let msg = ClientMsg::GameAction { data: vec![9] };
    let r = handle_client_msg(&msg, &Err("bad bytes".to_string()), &mut a, &mut lobby);
    assert_eq!(error_of(&r), (400, "invalid move data: bad bytes".to_string()));
}

#[test]
fn leave_aborts_game_and_rematch_flow() {
    let mut lobby = LobbyManager::new();
    let (mut a, pa) = signed_in("alice");
    let (mut b, pb) = signed_in("bob");
    let r = send(
        ClientMsg::CreateRoom { game_type: GameType::TicTacToe, settings: GameSettings::default() },
        &mut a,
        &mut lobby,
    );
    let room_id = match r.response {
        Some(Outgoing::Msg(ServerMsg::RoomJoined { room_id, .. })) => room_id,
        other => panic!("expected RoomJoined, got {other:?}"),
    };
    send(ClientMsg::JoinRoom { room_id }, &mut b, &mut lobby);

    let r = send(ClientMsg::RequestRematch, &mut a, &mut lobby);
    assert!(r.response.is_none());
    assert!(matches!(&r.broadcasts[..], [(p, Outgoing::Msg(ServerMsg::RematchRequested))] if *p == pb));
    let r = send(ClientMsg::CancelRematch, &mut a, &mut lobby);
    assert!(matches!(&r.broadcasts[..], [(p, Outgoing::Msg(ServerMsg::RematchCanceled))] if *p == pb));

    assert!(can_start_room(&lobby, room_id));
    let r = send(ClientMsg::RematchResponse { accept: true }, &mut b, &mut lobby);
    assert!(r.response.is_none());
    assert_eq!(r.broadcasts.len(), 4);
    assert!(matches!(&r.broadcasts[0], (_, Outgoing::Msg(ServerMsg::RematchAccepted))));
    assert!(matches!(&r.broadcasts[1], (_, Outgoing::GameState { tick: 0, .. })));

    let r = send(ClientMsg::LeaveRoom, &mut b, &mut lobby);
    assert!(matches!(r.response, Some(Outgoing::Msg(ServerMsg::RoomList(_)))));
    assert_eq!(b.current_room, None);
    assert_eq!(r.broadcasts.len(), 2);
    assert!(matches!(&r.broadcasts[0], (p, Outgoing::Msg(ServerMsg::PlayerLeft(q))) if *p == pa && *q == pb));
    assert!(matches!(
        &r.broadcasts[1],
        (p, Outgoing::Msg(ServerMsg::GameOver { outcome: GameOutcome::Win(w) })) if *p == pa && *w == pa
    ));
    assert!(!can_start_room(&lobby, room_id));
    let r = send(ClientMsg::LeaveRoom, &mut b, &mut lobby);
    assert_eq!(error_of(&r), (400, "not in a room".to_string()));

    let r = send(ClientMsg::RematchResponse { accept: false }, &mut a, &mut lobby);
    assert!(matches!(&r.broadcasts[..], [(p, Outgoing::Msg(ServerMsg::RematchDeclined))] if *p == pa));
    assert_eq!(a.current_room, None);
    assert!(lobby.list_rooms().is_empty());
    assert_eq!(lobby.get_player_room(pa), None);
}

#[test]
fn join_errors() {
    let mut lobby = LobbyManager::new();
    let (mut a, _) = signed_in("alice");
    let r = send(
        ClientMsg::CreateRoom { game_type: GameType::Chess, settings: GameSettings::default() },
        &mut a,
        &mut lobby,
    );
    assert_eq!(error_of(&r), (400, "Chess is not yet available".to_string()));
    let r = send(ClientMsg::JoinRoom { room_id: game_center::types::RoomId(5) }, &mut a, &mut lobby);
    assert_eq!(error_of(&r), (400, "room not found".to_string()));
}

#[test]
fn auth_prechecks() {
    let mut limiter = AuthRateLimiter::new();
    match auth_precheck(AuthKind::Register, "", "password1", &mut limiter, 1) {
        Some(ServerMsg::AuthFail { reason }) => {
            assert_eq!(reason, "username must be 1-32 chars, password must be 8-128 bytes")
        }
        other => panic!("expected AuthFail, got {other:?}"),
    }
    assert!(auth_precheck(AuthKind::Register, "carol", "short", &mut limiter, 1).is_some());
    assert!(auth_precheck(AuthKind::Login, "carol", "short", &mut limiter, 1).is_none());
    let long_name = "n".repeat(33);
    match auth_precheck(AuthKind::Login, &long_name, "whatever", &mut limiter, 1) {
        Some(ServerMsg::AuthFail { reason }) => assert_eq!(reason, "invalid credentials"),
        other => panic!("expected AuthFail, got {other:?}"),
    }
    for _ in 1..MAX_ATTEMPTS {
        assert!(auth_precheck(AuthKind::Login, "Carol", "whatever", &mut limiter, 1).is_none());
    }
    match auth_precheck(AuthKind::Register, "carol", "password1", &mut limiter, 1) {
        Some(ServerMsg::AuthFail { reason }) => assert_eq!(reason, "too many attempts, try again later"),
        other => panic!("expected AuthFail, got {other:?}"),
    }
}

#[test]
fn auth_replies() {
    let mut s = Session::new();
    let pid = PlayerId::new();
    match auth_accepted(&mut s, pid, "dave".to_string(), "tok".to_string(), 99) {
        ServerMsg::AuthOk { token, expires_at, player_id } => {
            assert_eq!((token.as_str(), expires_at, player_id), ("tok", 99, pid))
        }
        other => panic!("expected AuthOk, got {other:?}"),
    }
    assert!(s.authenticated);
    assert_eq!(s.username.as_deref(), Some("dave"));
    assert!(matches!(register_store_failure(true), ServerMsg::AuthFail { reason } if reason == "username already taken"));
    assert!(matches!(register_store_failure(false), ServerMsg::Error { code: 500, message } if message == "failed to create user"));

    let mut t = Session::new();
    let r = authenticate_token(&mut t, "x".to_string(), Err("token expired".to_string()));
    assert!(matches!(r, ServerMsg::AuthFail { reason } if reason == "token expired"));
    assert!(!t.authenticated);
    let r = authenticate_token(&mut t, "x".to_string(), Ok((None, "eve".to_string(), 5)));
    assert!(matches!(r, ServerMsg::AuthFail { reason } if reason == "malformed token subject"));
    let r = authenticate_token(&mut t, "x".to_string(), Ok((Some(pid), "eve".to_string(), 5)));
    assert!(matches!(r, ServerMsg::AuthOk { expires_at: 5, .. }));
    assert_eq!(t.player_id, Some(pid));
}

#[test]
fn hash_and_verify_password_roundtrip() {
    let hash = hash_password("correct-horse-battery-staple").expect("hash");
    assert!(verify_password("correct-horse-battery-staple", &hash));
}

#[test]
fn wrong_password_fails_verification() {
    let hash = hash_password("correct-horse-battery-staple").expect("hash");
    assert!(!verify_password("nope", &hash));
}

#[test]
fn malformed_hash_fails_gracefully() {
    assert!(!verify_password("any", "not-an-argon2-hash"));
}

#[test]
fn each_hash_uses_unique_salt() {
    let h1 = hash_password("same-password").unwrap();
    let h2 = hash_password("same-password").unwrap();
    assert_ne!(h1, h2, "Argon2 hashes must use per-call salts");
}

#[test]
fn login_non_uuid_db_id_parse_fails() {
    let bad_id = "not-a-uuid";
    let result = PlayerId::parse(bad_id);
    assert!(result.is_none(), "non-UUID DB id must fail parse");
}

#[test]
fn register_non_uuid_db_id_parse_fails() {
    let bad_id = "also-not-a-uuid";
    let result = PlayerId::parse(bad_id);
    assert!(result.is_none(), "non-UUID DB id from register must fail parse");
}

#[test]
fn player_id_parses_uuid_text() {
    let p = PlayerId::parse("550e8400-e29b-41d4-a716-446655440000").unwrap();
    assert_eq!(p.0, 0x550e8400_e29b_41d4_a716_446655440000);
    assert_eq!(PlayerId::parse("550e8400e29b41d4a716446655440000"), Some(p));
}

#[test]
fn login_decision_after_lookup() {
    let hash = hash_password("correct horse").unwrap();
    let id = "67e55044-10b1-426f-9247-bb680e5fe0c8".to_string();
    let invalid = |r: Result<PlayerId, ServerMsg>| {
        matches!(r, Err(ServerMsg::AuthFail { reason }) if reason == "invalid credentials")
    };
    assert!(invalid(check_login(&None, "correct horse")));
    assert!(invalid(check_login(&Some((id.clone(), hash.clone())), "wrong horse")));
    assert_eq!(
        check_login(&Some((id.clone(), hash.clone())), "correct horse").unwrap(),
        PlayerId(0x67e55044_10b1_426f_9247_bb680e5fe0c8)
    );
    match check_login(&Some(("not-a-uuid".to_string(), hash)), "correct horse") {
        Err(ServerMsg::Error { code, message }) => {
            assert_eq!(code, 500);
            assert_eq!(message, "internal error");
        }
        other => panic!("expected an error 500, got {other:?}"),
    }
}
