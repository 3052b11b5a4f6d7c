use game_center::chess::{ChessMove, PieceKind, Position as Square};
use game_center::client_app::{App, ChessInputState, ClientGameState, GameMode, LoginField, LoginMode, Screen};
use game_center::client_input::{is_opposite, next_game_type, GameAction, Key, NetCommand, NetEvent};
use game_center::i18n::Language;
use game_center::messages::{RoomSummary, ServerMsg};
use game_center::snake::Direction;
use game_center::types::{Difficulty, GameOutcome, GameType, PlayerId, RoomId, RoomState};

fn test_app() -> App {
    App::new(Language::English, None, "wss://localhost:8443".to_string())
}

fn type_text(app: &mut App, text: &str) {
    for c in text.chars() {
        let sent = app.handle_key(Key::Char(c), false);
        assert!(sent.is_empty());
    }
}

#[test]
fn login_typing_and_submit() {
    let mut app = test_app();
    type_text(&mut app, "alicx");
    app.handle_key(Key::Backspace, false);
    type_text(&mut app, "e");
    assert_eq!(app.username_input, "alice");
    app.handle_key(Key::Tab, false);
    assert_eq!(app.active_field, LoginField::Password);
    type_text(&mut app, "password123");
    let sent = app.handle_key(Key::Enter, false);
    assert!(app.login_loading);
    assert_eq!(sent.len(), 1);
    match &sent[0] {
        NetCommand::Login { server_url, username, password } => {
            assert_eq!(server_url, "wss://localhost:8443");
            assert_eq!(username, "alice");
            assert_eq!(password, "password123");
        }
        other => panic!("unexpected command {other:?}"),
    }
    // While the request is out, keys are ignored.
    let sent = app.handle_key(Key::Char('x'), false);
    assert!(sent.is_empty());
    assert_eq!(app.password_input, "password123");
}

#[test]
fn login_register_mode_and_form_error() {
    let mut app = test_app();
    app.handle_key(Key::F(2), false);
    assert_eq!(app.login_mode, LoginMode::Register);
    let sent = app.handle_key(Key::Enter, false);
    assert!(sent.is_empty());
    assert!(app.login_error.is_some());
    assert!(!app.login_loading);
}

#[test]
fn login_solo_menu_starts_a_game() {
    let mut app = test_app();
    app.handle_key(Key::F(3), false);
    assert!(app.selecting_solo_game);
    app.handle_key(Key::Char('c'), false);
    assert_eq!(app.selected_game_type, GameType::Connect4);
    assert!(app.selecting_difficulty);
    app.handle_key(Key::Char('e'), false);
    assert!(!app.selecting_difficulty);
    assert_eq!(app.screen, Screen::InGame);
    assert_eq!(app.game_mode, GameMode::Solo { difficulty: Difficulty::Easy });
    assert!(matches!(app.game_state, Some(ClientGameState::Connect4(_))));
}

#[test]
fn lobby_game_cycle_follows_the_documented_order() {
    let mut app = test_app();
    app.screen = Screen::Lobby;
    app.authenticated = true;
    assert_eq!(app.selected_game_type, GameType::TicTacToe);
    let expected = [GameType::Connect4, GameType::Checkers, GameType::Chess, GameType::Snake, GameType::TicTacToe];
    for g in expected {
        app.handle_key(Key::Char('g'), false);
        assert_eq!(app.selected_game_type, g);
    }
    assert_eq!(next_game_type(GameType::BlockBreaker), GameType::TicTacToe);
}

#[test]
fn lobby_create_and_join() {
    let mut app = test_app();
    app.screen = Screen::Lobby;
    app.status_error = Some("old".to_string());
    let sent = app.handle_key(Key::Char('c'), false);
    assert!(sent.is_empty());
    assert!(app.selecting_multiplayer_game);
    assert!(app.status_error.is_none());
    let sent = app.handle_key(Key::Char('h'), false);
    assert_eq!(sent.len(), 1);
    match &sent[0] {
        NetCommand::CreateRoom { game_type, settings } => {
            assert_eq!(*game_type, GameType::Chess);
            assert_eq!(settings.max_players, 2);
        }
        other => panic!("unexpected command {other:?}"),
    }
    assert_eq!(app.current_game_type, GameType::Chess);

    let room = RoomSummary {
        id: RoomId::new(),
        game_type: GameType::Connect4,
        player_count: 1,
        max_players: 2,
        state: RoomState::Waiting,
        host_name: "bob".to_string(),
    };
    let id = room.id;
    app.rooms = vec![room];
    app.handle_key(Key::Down, false);
    assert_eq!(app.selected_room, 0);
    let sent = app.handle_key(Key::Enter, false);
    match &sent[0] {
        NetCommand::JoinRoom { room_id } => assert_eq!(*room_id, id),
        other => panic!("unexpected command {other:?}"),
    }
    assert_eq!(app.current_game_type, GameType::Connect4);
    let sent = app.handle_key(Key::Char('r'), false);
    assert!(matches!(sent[0], NetCommand::ListRooms));
}

#[test]
fn escape_leaves_room_and_quits_from_lobby() {
    let mut app = test_app();
    app.screen = Screen::Room;
    app.current_room_id = Some(RoomId::new());
    let sent = app.handle_key(Key::Esc, false);
    assert_eq!(sent.len(), 2);
    assert!(matches!(sent[0], NetCommand::LeaveRoom));
    assert!(matches!(sent[1], NetCommand::ListRooms));
    assert_eq!(app.screen, Screen::Lobby);
    app.handle_key(Key::Esc, false);
    assert!(!app.running);
}

#[test]
fn help_toggles_in_game_and_escape_closes_it() {
    let mut app = test_app();
    app.start_solo_game(Difficulty::Easy);
    app.handle_key(Key::Char('i'), false);
    assert!(app.show_help);
    app.handle_key(Key::Esc, false);
    assert!(!app.show_help);
    assert_eq!(app.screen, Screen::InGame);
    app.handle_key(Key::Esc, false);
    assert_eq!(app.screen, Screen::Login);
    assert!(app.game_state.is_none());
}

#[test]
fn ctrl_c_quits() {
    let mut app = test_app();
    app.handle_key(Key::Char('c'), true);
    assert!(!app.running);
}

#[test]
fn tictactoe_keys_move_and_send_online() {
    let mut app = test_app();
    let me = PlayerId::new();
    app.start_solo_game(Difficulty::Easy);
    app.my_player_id = Some(me);
    if let Some(ClientGameState::TicTacToe(ref mut s)) = app.game_state {
        s.players = [me, PlayerId::new()];
        s.current_turn = 0;
    }
    app.game_mode = GameMode::Online;
    app.cursor_row = 1;
    app.cursor_col = 1;
    app.handle_key(Key::Up, false);
    app.handle_key(Key::Up, false);
    app.handle_key(Key::Right, false);
    app.handle_key(Key::Right, false);
    assert_eq!((app.cursor_row, app.cursor_col), (0, 2));
    let sent = app.handle_key(Key::Enter, false);
    match &sent[0] {
        NetCommand::GameAction { action: GameAction::TicTacToe(m) } => assert_eq!((m.row, m.col), (0, 2)),
        other => panic!("unexpected command {other:?}"),
    }
}

#[test]
fn snake_keys_refuse_reversal() {
    assert!(is_opposite(Direction::Up, Direction::Down));
    assert!(!is_opposite(Direction::Up, Direction::Left));
    let mut app = test_app();
    app.selected_game_type = GameType::Snake;
    app.start_solo_game(Difficulty::Easy);
    let me = app.my_player_id.unwrap();
    let facing = match &app.game_state {
        Some(ClientGameState::Snake(s)) => s.snakes.iter().find(|sn| sn.player_id == me).unwrap().direction,
        _ => panic!("expected Snake state"),
    };
    let back = match facing {
        Direction::Up => Key::Down,
        Direction::Down => Key::Up,
        Direction::Left => Key::Right,
        Direction::Right => Key::Left,
    };
    app.handle_key(back, false);
    assert!(app.snake_pending_direction.is_none());
    app.handle_key(Key::Char('w'), false);
    if facing != Direction::Down {
        assert_eq!(app.snake_pending_direction, Some(Direction::Up));
    }
}

#[test]
fn chess_select_and_move_online() {
    let mut app = test_app();
    app.selected_game_type = GameType::Chess;
    app.solo_player_went_first = Some(false);
    app.start_solo_game(Difficulty::Easy);
    app.game_mode = GameMode::Online;
    // White pawn e2 (row 1, col 4) to e4 (row 3, col 4).
    app.chess_input = ChessInputState { selected_from: None, pending_promotion: None, cursor_row: 1, cursor_col: 4 };
    app.handle_key(Key::Enter, false);
    assert_eq!(app.chess_input.selected_from, Some(Square { row: 1, col: 4 }));
    app.handle_key(Key::Up, false);
    app.handle_key(Key::Up, false);
    let sent = app.handle_key(Key::Enter, false);
    match &sent[0] {
        NetCommand::GameAction { action: GameAction::Chess(m) } => {
            assert_eq!(*m, ChessMove { from: Square { row: 1, col: 4 }, to: Square { row: 3, col: 4 }, promotion: None });
        }
        other => panic!("unexpected command {other:?}"),
    }
    assert!(app.chess_input.selected_from.is_none());
}

#[test]
fn chess_illegal_target_shows_error() {
    let mut app = test_app();
    app.selected_game_type = GameType::Chess;
    app.solo_player_went_first = Some(false);
    app.start_solo_game(Difficulty::Easy);
    app.chess_input = ChessInputState { selected_from: None, pending_promotion: None, cursor_row: 1, cursor_col: 4 };
    app.handle_key(Key::Enter, false);
    app.handle_key(Key::Up, false);
    app.handle_key(Key::Up, false);
    app.handle_key(Key::Up, false);
    app.handle_key(Key::Enter, false);
    assert_eq!(app.status_error.as_deref(), Some("Illegal move"));
    let _ = PieceKind::Queen;
}

#[test]
fn rematch_keys_after_game_over() {
    let mut app = test_app();
    app.start_solo_game(Difficulty::Easy);
    app.game_mode = GameMode::Online;
    app.game_over = Some(GameOutcome::Draw);
    let sent = app.handle_key(Key::Char('r'), false);
    assert!(matches!(sent[0], NetCommand::RequestRematch));
    assert!(app.rematch_pending);
    let sent = app.handle_key(Key::Char('r'), false);
    assert!(sent.is_empty());
    app.rematch_incoming = true;
    let sent = app.handle_key(Key::Char('y'), false);
    assert!(matches!(sent[0], NetCommand::RematchResponse { accept: true }));
    assert!(!app.rematch_incoming);
}

#[test]
fn network_events_update_the_screen() {
    let mut app = test_app();
    let sent = app.handle_net_event(NetEvent::Connected);
    assert!(matches!(sent[0], NetCommand::ListRooms));
    let me = PlayerId::new();
    let sent = app.handle_net_event(NetEvent::AuthResult(ServerMsg::AuthOk {
        token: "t".to_string(),
        expires_at: 0,
        player_id: me,
    }));
    assert!(matches!(sent[0], NetCommand::ListRooms));
    assert_eq!(app.my_player_id, Some(me));
    assert_eq!(app.screen, Screen::Lobby);
    app.handle_net_event(NetEvent::Error("boom".to_string()));
    assert_eq!(app.status_error.as_deref(), Some("boom"));
    app.handle_net_event(NetEvent::RematchRequested);
    assert!(app.rematch_incoming);
    app.handle_net_event(NetEvent::Disconnected);
    assert_eq!(app.screen, Screen::Login);
    assert!(!app.authenticated);
    assert_eq!(app.login_error.as_deref(), Some("Disconnected from server"));
    app.handle_net_event(NetEvent::Error("bad password".to_string()));
    assert_eq!(app.login_error.as_deref(), Some("bad password"));
}
