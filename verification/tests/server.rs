use game_center::lobby::LobbyManager;
use game_center::messages::ServerMsg;
use game_center::rate_limit::{AuthRateLimiter, MAX_ATTEMPTS, WINDOW_SECS};
use game_center::room::Room;
use game_center::session::Session;
use game_center::tictactoe::TicTacToeMove;
use game_center::turn_based::TurnBasedGame;
use game_center::types::{GameOutcome, GameSettings, GameType, PlayerId, PlayerInfo, RoomId, RoomState};

fn ip() -> u128 {
    // ::ffff:127.0.0.1
    0xffff_7f00_0001
}

#[test]
fn allows_up_to_limit() {
    let mut limiter = AuthRateLimiter::new();
    for _ in 0..MAX_ATTEMPTS {
        assert!(limiter.check_and_record(ip(), "alice"));
    }
}

#[test]
fn blocks_after_limit() {
    let mut limiter = AuthRateLimiter::new();
    for _ in 0..MAX_ATTEMPTS {
        limiter.check_and_record(ip(), "alice");
    }
    assert!(!limiter.check_and_record(ip(), "alice"));
}

#[test]
fn different_users_independent() {
    let mut limiter = AuthRateLimiter::new();
    for _ in 0..MAX_ATTEMPTS {
        limiter.check_and_record(ip(), "alice");
    }
    assert!(limiter.check_and_record(ip(), "bob"));
}

#[test]
fn case_insensitive_username() {
    let mut limiter = AuthRateLimiter::new();
    for _ in 0..MAX_ATTEMPTS {
        limiter.check_and_record(ip(), "Alice");
    }
    assert!(!limiter.check_and_record(ip(), "alice"));
}

#[test]
fn window_slides_with_time() {
    // Times are milliseconds on the limiter's clock.
    let mut limiter = AuthRateLimiter::new();
    for t in 0..MAX_ATTEMPTS as u64 {
        assert!(limiter.record_attempt(1, "carol", t * 1000));
    }
    assert!(!limiter.record_attempt(1, "carol", 20_000));
    // Another address keeps its own window.
    assert!(limiter.record_attempt(2, "carol", 20_000));
    // Once the first attempt has left the window, one more is allowed.
    assert!(limiter.record_attempt(1, "carol", WINDOW_SECS * 1000 + 1));
    assert!(!limiter.record_attempt(1, "carol", WINDOW_SECS * 1000 + 1));
}

fn make_player(name: &str) -> PlayerInfo {
    PlayerInfo {
        id: PlayerId::new(),
        username: name.to_string(),
    }
}

#[test]
fn create_room() {
    let host = make_player("alice");
    let room = Room::new(
        RoomId::new(),
        GameType::TicTacToe,
        GameSettings::default(),
        host.clone(),
    );
    assert_eq!(room.player_count(), 1);
    assert!(room.has_player(host.id));
    assert!(!room.is_full());
}

#[test]
fn add_and_remove_player() {
    let host = make_player("alice");
    let guest = make_player("bob");
    let mut room = Room::new(
        RoomId::new(),
        GameType::TicTacToe,
        GameSettings::default(),
        host.clone(),
    );

    room.add_player(guest.clone()).unwrap();
    assert_eq!(room.player_count(), 2);
    assert!(room.is_full());

    room.remove_player(guest.id);
    assert_eq!(room.player_count(), 1);
    assert!(!room.has_player(guest.id));
}

#[test]
fn cannot_join_full_room() {
    let host = make_player("alice");
    let guest = make_player("bob");
    let extra = make_player("charlie");
    let mut room = Room::new(
        RoomId::new(),
        GameType::TicTacToe,
        GameSettings::default(),
        host,
    );

    room.add_player(guest).unwrap();
    let result = room.add_player(extra);
    assert!(result.is_err());
}

#[test]
fn cannot_join_twice() {
    let host = make_player("alice");
    let host_clone = PlayerInfo {
        id: host.id,
        username: "alice".to_string(),
    };
    let mut room = Room::new(
        RoomId::new(),
        GameType::TicTacToe,
        GameSettings {
            max_players: 4,
            ..GameSettings::default()
        },
        host,
    );

    let result = room.add_player(host_clone);
    assert!(result.is_err());
}

#[test]
fn remove_all_makes_empty() {
    let host = make_player("alice");
    let host_id = host.id;
    let mut room = Room::new(
        RoomId::new(),
        GameType::Chess,
        GameSettings::default(),
        host,
    );

    room.remove_player(host_id);
    assert!(room.is_empty());
}

#[test]
fn room_join_errors_and_removal_of_stranger() {
    let host = make_player("alice");
    let mut room = Room::new(RoomId::new(), GameType::TicTacToe, GameSettings::default(), host.clone());
    assert_eq!(room.add_player(host.clone()).unwrap_err(), "already in room");
    room.add_player(make_player("bob")).unwrap();
    assert_eq!(room.add_player(make_player("carol")).unwrap_err(), "room is full");
    assert!(!room.remove_player(PlayerId::new()));
    assert_eq!(room.player_count(), 2);
    assert_eq!(room.state, RoomState::Waiting);
}

#[test]
fn session_message_buffer() {
    let mut session = Session::new();
    for i in 0..5u64 {
        let seq = session.next_seq();
        session.record_message(seq, ServerMsg::Pong);
        assert_eq!(session.seq, i + 1);
    }

    let missed = session.messages_since(2);
    assert_eq!(missed.len(), 3);
}

#[test]
fn session_buffer_overflow() {
    let mut session = Session::new();
    session.max_buffer = 3;

    for _ in 0..5 {
        let seq = session.next_seq();
        session.record_message(seq, ServerMsg::Pong);
    }

    assert_eq!(session.recent_messages.len(), 3);
    let missed = session.messages_since(0);
    assert_eq!(missed.len(), 3);
}

#[test]
fn session_authentication() {
    let mut session = Session::new();
    assert!(!session.authenticated);

    let pid = PlayerId::new();
    session.authenticate(pid, "alice".to_string());

    assert!(session.authenticated);
    assert_eq!(session.player_id, Some(pid));
    assert_eq!(session.username.as_deref(), Some("alice"));
}

#[test]
fn session_replays_in_order_after_eviction() {
    let mut session = Session::with_buffer_size(2);
    for _ in 0..4 {
        let seq = session.next_seq();
        session.record_message(seq, ServerMsg::Pong);
    }
    assert_eq!(session.buffered_len(), 2);
    let seqs: Vec<u64> = session.recent_messages.iter().map(|(s, _)| *s).collect();
    assert_eq!(seqs, vec![3, 4]);
    assert_eq!(session.messages_since(3).len(), 1);
    assert_eq!(session.messages_since(4).len(), 0);
}

fn make_game() -> (TurnBasedGame, PlayerId, PlayerId) {
    let p0 = PlayerId::new();
    let p1 = PlayerId::new();
    let game = TurnBasedGame::new(GameType::TicTacToe, &[p0, p1], &GameSettings::default()).unwrap();
    (game, p0, p1)
}

fn apply_action(
    game: &mut TurnBasedGame,
    player: PlayerId,
    mv: TicTacToeMove,
) -> (ServerMsg, Vec<(PlayerId, ServerMsg)>) {
    let result = game.play(player, &mv);
    let state_data = vec![game.current_player().map(|p| p.0 as u8).unwrap_or(0)];
    game.action_messages(player, &result, &state_data)
}

#[test]
fn create_game() {
    let (game, p0, _) = make_game();
    assert!(!game.finished);
    assert_eq!(game.current_player(), Some(p0));
}

#[test]
fn valid_move_broadcasts_state() {
    let (mut game, p0, _) = make_game();
    let (resp, broadcasts) = apply_action(&mut game, p0, TicTacToeMove { row: 1, col: 1 });

    match resp {
        ServerMsg::GameStateUpdate { tick, .. } => assert_eq!(tick, 1),
        other => panic!("expected GameStateUpdate, got {other:?}"),
    }
    assert_eq!(broadcasts.len(), 1);
}

#[test]
fn invalid_move_returns_error() {
    let (mut game, _, p1) = make_game();
    let (resp, broadcasts) = apply_action(&mut game, p1, TicTacToeMove { row: 0, col: 0 });

    match resp {
        ServerMsg::Error { code: 400, .. } => {}
        other => panic!("expected error, got {other:?}"),
    }
    assert!(broadcasts.is_empty());
}

#[test]
fn game_over_sends_outcome() {
    let (mut game, p0, p1) = make_game();

    apply_action(&mut game, p0, TicTacToeMove { row: 0, col: 0 });
    apply_action(&mut game, p1, TicTacToeMove { row: 1, col: 0 });
    apply_action(&mut game, p0, TicTacToeMove { row: 0, col: 1 });
    apply_action(&mut game, p1, TicTacToeMove { row: 1, col: 1 });
    let (_, broadcasts) = apply_action(&mut game, p0, TicTacToeMove { row: 0, col: 2 });

    assert!(game.finished);

    let game_overs: Vec<_> = broadcasts
        .iter()
        .filter(|(_, msg)| matches!(msg, ServerMsg::GameOver { .. }))
        .collect();
    assert_eq!(game_overs.len(), 2);

    let state_updates: Vec<_> = broadcasts
        .iter()
        .filter(|(_, msg)| matches!(msg, ServerMsg::GameStateUpdate { .. }))
        .collect();
    assert_eq!(state_updates.len(), 1);
    assert_eq!(broadcasts.len(), 3);
    match &broadcasts[1].1 {
        ServerMsg::GameOver { outcome } => assert_eq!(*outcome, GameOutcome::Win(p0)),
        other => panic!("expected GameOver, got {other:?}"),
    }
}

#[test]
fn refused_move_keeps_the_game() {
    let (mut game, p0, p1) = make_game();
    assert_eq!(
        game.play(p1, &TicTacToeMove { row: 0, col: 0 }).unwrap_err(),
        "not your turn"
    );
    assert_eq!(game.current_player(), Some(p0));
    assert_eq!(game.play(p0, &TicTacToeMove { row: 0, col: 0 }), Ok(None));
    assert_eq!(game.current_player(), Some(p1));
    assert_eq!(game.others(p0), vec![p1]);
    assert!(TurnBasedGame::is_supported(GameType::TicTacToe));
    assert!(!TurnBasedGame::is_supported(GameType::Chess));
    assert!(TurnBasedGame::new(GameType::Chess, &[p0, p1], &GameSettings::default()).is_none());
}

#[test]
fn lobby_create_join_leave() {
    let mut lobby = LobbyManager::new();
    let alice = make_player("alice");
    let bob = make_player("bob");
    let room_id = lobby
        .create_room(GameType::TicTacToe, GameSettings::default(), alice.clone())
        .unwrap();
    assert_eq!(lobby.get_player_room(alice.id), Some(room_id));
    assert!(lobby
        .create_room(GameType::TicTacToe, GameSettings::default(), alice.clone())
        .is_err());
    let rooms = lobby.list_rooms();
    assert_eq!(rooms.len(), 1);
    assert_eq!(rooms[0].player_count, 1);
    assert_eq!(rooms[0].host_name, "alice");

    let players = lobby.join_room(room_id, bob.clone()).unwrap();
    assert_eq!(players.len(), 2);
    assert_eq!(lobby.get_player_room(bob.id), Some(room_id));
    let rooms = lobby.list_rooms();
    assert_eq!(rooms[0].state, RoomState::InProgress);
    assert!(lobby.join_room(RoomId::new(), make_player("carol")).is_err());

    let left = lobby.leave_room(bob.id).unwrap();
    assert_eq!(left.0, room_id);
    assert!(!left.1);
    assert!(left.2);
    assert_eq!(lobby.get_player_room(bob.id), None);
    assert_eq!(lobby.get_room_players(room_id).unwrap().len(), 1);
    assert!(lobby.leave_room(bob.id).is_none());

    let last = lobby.leave_room(alice.id).unwrap();
    assert!(last.1);
    assert!(lobby.list_rooms().is_empty());
    assert_eq!(lobby.cleanup_empty_rooms(), 0);
}

#[test]
fn create_and_list_rooms() {
    let mut lobby = LobbyManager::new();
    let host = make_player("alice");

    let room_id = lobby
        .create_room(GameType::TicTacToe, GameSettings::default(), host)
        .unwrap();

    let rooms = lobby.list_rooms();
    assert_eq!(rooms.len(), 1);
    assert_eq!(rooms[0].id, room_id);
    assert_eq!(rooms[0].game_type, GameType::TicTacToe);
    assert_eq!(rooms[0].player_count, 1);
    assert_eq!(rooms[0].host_name, "alice");
}

#[test]
fn join_room() {
    let mut lobby = LobbyManager::new();
    let host = make_player("alice");
    let guest = make_player("bob");

    let room_id = lobby
        .create_room(GameType::TicTacToe, GameSettings::default(), host)
        .unwrap();

    let players = lobby.join_room(room_id, guest).unwrap();
    assert_eq!(players.len(), 2);

    let rooms = lobby.list_rooms();
    assert_eq!(rooms[0].player_count, 2);
}

#[test]
fn cannot_join_nonexistent_room() {
    let mut lobby = LobbyManager::new();
    let player = make_player("alice");
    let result = lobby.join_room(RoomId::new(), player);
    assert!(result.is_err());
}

#[test]
fn cannot_create_two_rooms() {
    let mut lobby = LobbyManager::new();
    let host = make_player("alice");
    let host_id = host.id;

    lobby
        .create_room(GameType::TicTacToe, GameSettings::default(), host)
        .unwrap();

    let host2 = PlayerInfo {
        id: host_id,
        username: "alice".to_string(),
    };
    let result = lobby
        .create_room(GameType::Chess, GameSettings::default(), host2);
    assert!(result.is_err());
}

#[test]
fn leave_room() {
    let mut lobby = LobbyManager::new();
    let host = make_player("alice");
    let host_id = host.id;
    let guest = make_player("bob");

    let room_id = lobby
        .create_room(GameType::TicTacToe, GameSettings::default(), host)
        .unwrap();
    lobby.join_room(room_id, guest).unwrap();

    let result = lobby.leave_room(host_id);
    assert_eq!(result, Some((room_id, false, true))); // not empty, bob still there, game aborted

    let rooms = lobby.list_rooms();
    assert_eq!(rooms[0].player_count, 1);
}

#[test]
fn leave_last_player_marks_empty() {
    let mut lobby = LobbyManager::new();
    let host = make_player("alice");
    let host_id = host.id;

    let room_id = lobby
        .create_room(GameType::TicTacToe, GameSettings::default(), host)
        .unwrap();

    let result = lobby.leave_room(host_id);
    assert_eq!(result, Some((room_id, true, false))); // empty now
}

#[test]
fn player_room_tracking() {
    let mut lobby = LobbyManager::new();
    let host = make_player("alice");
    let host_id = host.id;

    assert!(lobby.get_player_room(host_id).is_none());

    let room_id = lobby
        .create_room(GameType::TicTacToe, GameSettings::default(), host)
        .unwrap();

    assert_eq!(lobby.get_player_room(host_id), Some(room_id));

    lobby.leave_room(host_id);
    assert!(lobby.get_player_room(host_id).is_none());
}

#[test]
fn unsupported_game_type_rejected() {
    let mut lobby = LobbyManager::new();
    let host = make_player("alice");

    let result = lobby
        .create_room(GameType::Chess, GameSettings::default(), host);
    assert!(result.is_err());
    assert!(result.unwrap_err().contains("not yet available"));
}

#[test]
fn attempts_per_window_at_given_times() {
    let mut limiter = AuthRateLimiter::new();
    for k in 0..MAX_ATTEMPTS as u64 {
        assert!(limiter.check_and_record_at(ip(), "Alice", 1_000 + k * 5_000));
    }
    assert!(!limiter.check_and_record_at(ip(), "alice", 59_999));
    assert!(!limiter.check_and_record_at(ip(), "ALICE", 60_000));
    // The first attempt has left the window: one more is accepted.
    assert!(limiter.check_and_record_at(ip(), "alice", 61_000));
}
