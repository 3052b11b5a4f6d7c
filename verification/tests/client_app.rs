use std::collections::HashMap;
use game_center::checkers::{Checkers, Position, Side, Square, BOARD_SIZE};
use game_center::client_app::{
    App, CheckersInputStage, ClientGameState, GameMode, LoginMode, Screen,
};
use game_center::i18n::Language;
use game_center::snake::{Direction, Position as Cell, SnakeDelta, SnakeEngine};
use game_center::snake_delta::apply_delta;
use game_center::terminal_fit::{
    check_fit, check_fit_for_game, Rect, TerminalFit, EDGE_MIN_COLS, EDGE_MIN_ROWS, MIN_COLS,
    MIN_ROWS,
};
use game_center::types::{
    Difficulty, GameOutcome, GameSettings, GameType, PlayerId, PlayerInfo, RoomId,
};

fn test_app() -> App {
    App::new(Language::English, None, "wss://localhost:8443".to_string())
}

#[test]
fn initial_state() {
    let app = test_app();
    assert!(app.running);
    assert_eq!(app.screen, Screen::Login);
    assert_eq!(app.login_mode, LoginMode::Login);
    assert!(!app.authenticated);
    assert!(app.rooms.is_empty());
}

#[test]
fn toggle_login_mode() {
    let mut app = test_app();
    assert_eq!(app.login_mode, LoginMode::Login);
    app.toggle_login_mode();
    assert_eq!(app.login_mode, LoginMode::Register);
    app.toggle_login_mode();
    assert_eq!(app.login_mode, LoginMode::Login);
}

#[test]
fn validate_empty_username() {
    let app = test_app();
    assert!(app.validate_login_form().is_some());
}

#[test]
fn validate_short_password_register() {
    let mut app = test_app();
    app.login_mode = LoginMode::Register;
    app.username_input = "alice".to_string();
    app.password_input = "short".to_string();
    assert!(app.validate_login_form().is_some());
}

#[test]
fn validate_valid_login() {
    let mut app = test_app();
    app.username_input = "alice".to_string();
    app.password_input = "password123".to_string();
    assert!(app.validate_login_form().is_none());
}

#[test]
fn auth_success_transitions_to_lobby() {
    let mut app = test_app();
    app.username_input = "alice".to_string();
    app.on_auth_success("jwt-token".to_string());
    assert_eq!(app.screen, Screen::Lobby);
    assert!(app.authenticated);
    assert!(app.password_input.is_empty());
}

#[test]
fn auth_failure_shows_error() {
    let mut app = test_app();
    app.login_loading = true;
    app.on_auth_failure("bad password".to_string());
    assert!(!app.login_loading);
    assert_eq!(app.login_error.as_deref(), Some("bad password"));
}

#[test]
fn language_switch() {
    let mut app = test_app();
    assert_eq!(app.translator.get("app.title"), "Game Center");
    app.set_language(Language::French);
    assert_eq!(app.translator.get("app.title"), "Centre de Jeux");
}

#[test]
fn room_joined_transitions_to_room_screen() {
    let mut app = test_app();
    let room_id = RoomId::new();
    let players = vec![PlayerInfo { id: PlayerId::new(), username: "alice".to_string() }];
    app.on_room_joined(room_id, players.clone());
    assert_eq!(app.screen, Screen::Room);
    assert_eq!(app.current_room_id, Some(room_id));
    assert_eq!(app.current_room_players.len(), 1);
}

#[test]
fn room_left_transitions_to_lobby() {
    let mut app = test_app();
    app.screen = Screen::Room;
    app.current_room_id = Some(RoomId::new());
    app.on_room_left();
    assert_eq!(app.screen, Screen::Lobby);
    assert!(app.current_room_id.is_none());
}

#[test]
fn solo_game_starts() {
    let mut app = test_app();
    app.start_solo_game(Difficulty::Hard);
    assert_eq!(app.screen, Screen::InGame);
    assert!(app.game_state.is_some());
    assert!(matches!(app.game_mode, GameMode::Solo { .. }));
}

#[test]
fn solo_move_applies_and_bot_responds() {
    let mut app = test_app();
    app.start_solo_game(Difficulty::Easy);
    app.play_solo_move(0, 0);
    let state = app.game_state.as_ref().unwrap();
    let player_went_first = app.solo_player_went_first.unwrap_or(true);
    let expected_moves = if player_went_first { 2 } else { 3 };
    match state {
        ClientGameState::TicTacToe(s) => assert_eq!(s.move_count, expected_moves),
        _ => panic!("expected TicTacToe state"),
    }
}

#[test]
fn solo_rematch_resets_game() {
    let mut app = test_app();
    app.start_solo_game(Difficulty::Easy);
    app.play_solo_move(0, 0);
    match app.game_state.as_ref().unwrap() {
        ClientGameState::TicTacToe(s) => assert!(s.move_count >= 1),
        _ => panic!("expected TicTacToe state"),
    }
    app.game_over = Some(GameOutcome::Draw);
    app.rematch_solo();
    assert!(app.game_over.is_none());
    let player_went_first = app.solo_player_went_first.unwrap_or(true);
    let expected_moves = if player_went_first { 0 } else { 1 };
    match app.game_state.as_ref().unwrap() {
        ClientGameState::TicTacToe(s) => assert_eq!(s.move_count, expected_moves),
        _ => panic!("expected TicTacToe state"),
    }
    assert_eq!(app.screen, Screen::InGame);
    assert!(matches!(app.game_mode, GameMode::Solo { difficulty: Difficulty::Easy }));
}

#[test]
fn solo_connect4_starts_and_moves() {
    let mut app = test_app();
    app.selected_game_type = GameType::Connect4;
    app.start_solo_game(Difficulty::Easy);
    assert_eq!(app.screen, Screen::InGame);
    assert!(matches!(app.game_state, Some(ClientGameState::Connect4(_))));
    app.play_solo_move(0, 3);
    let player_went_first = app.solo_player_went_first.unwrap_or(true);
    let expected_moves = if player_went_first { 2 } else { 3 };
    match app.game_state.as_ref().unwrap() {
        ClientGameState::Connect4(s) => assert_eq!(s.move_count, expected_moves),
        _ => panic!("expected Connect4 state"),
    }
}

#[test]
fn difficulty_selection_state() {
    let mut app = test_app();
    assert!(!app.selecting_difficulty);
    app.selecting_difficulty = true;
    assert!(app.selecting_difficulty);
    app.selecting_difficulty = false;
    assert!(!app.selecting_difficulty);
}

fn checkers_solo_app() -> App {
    let mut app = test_app();
    app.selected_game_type = GameType::Checkers;
    app.solo_player_went_first = Some(false);
    app.start_solo_game(Difficulty::Easy);
    app
}

#[test]
fn checkers_solo_start_sets_state_and_cursor() {
    let app = checkers_solo_app();
    assert_eq!(app.screen, Screen::InGame);
    assert!(matches!(app.game_state, Some(ClientGameState::Checkers(_))));
    assert_eq!(app.cursor_row, 5);
    assert_eq!(app.cursor_col, 0);
    assert!(App::checkers_is_dark_square(app.cursor_row, app.cursor_col));
    assert_eq!(app.checkers_input.stage, CheckersInputStage::Idle);
    assert!(app.checkers_input.partial_path.is_empty());
}

#[test]
fn checkers_cursor_steps_one_square_and_clamps_to_board() {
    let mut app = checkers_solo_app();
    app.checkers_cursor_step(1, 0);
    assert_eq!((app.cursor_row, app.cursor_col), (6, 0));
    app.checkers_cursor_step(0, -1);
    assert_eq!((app.cursor_row, app.cursor_col), (6, 0));
    app.checkers_cursor_step(-1, 1);
    assert_eq!((app.cursor_row, app.cursor_col), (5, 1));
}

#[test]
fn checkers_input_idle_to_target_select_on_enter_over_own_piece() {
    let mut app = checkers_solo_app();
    assert_eq!(app.checkers_input.stage, CheckersInputStage::Idle);
    app.checkers_confirm();
    assert_eq!(app.checkers_input.stage, CheckersInputStage::TargetSelect);
    assert_eq!(app.checkers_input.origin, Some(Position { row: 5, col: 0 }));
    assert_eq!(app.checkers_input.partial_path.len(), 1);
}

#[test]
fn checkers_single_step_submits_and_alternates_turn() {
    let mut app = checkers_solo_app();
    app.checkers_confirm();
    assert_eq!(app.checkers_input.stage, CheckersInputStage::TargetSelect);
    app.cursor_row = 4;
    app.cursor_col = 1;
    let my_id = app.my_player_id.unwrap();
    app.checkers_confirm();
    assert_eq!(app.checkers_input.stage, CheckersInputStage::Idle);
    assert!(app.checkers_input.partial_path.is_empty());
    let Some(ClientGameState::Checkers(ref state)) = app.game_state else {
        panic!("expected Checkers state");
    };
    assert_eq!(state.board[5][0], Square::Empty);
    assert_eq!(state.board[4][1], Square::Man(Side::Black));
    assert!(state.move_count >= 1);
    if app.game_over.is_none() {
        assert_eq!(Checkers::current_player(state), my_id);
    }
}

#[test]
fn checkers_mandatory_capture_not_intercepted_by_non_capture() {
    let mut app = checkers_solo_app();
    let Some(ClientGameState::Checkers(ref mut state)) = app.game_state else {
        panic!("expected Checkers state");
    };
    state.board = [[Square::Empty; BOARD_SIZE]; BOARD_SIZE];
    state.board[5][0] = Square::Man(Side::Black);
    state.board[4][1] = Square::Man(Side::Red);
    state.board[5][2] = Square::Man(Side::Black);
    state.current_turn = 0;

    app.cursor_row = 5;
    app.cursor_col = 2;
    app.checkers_confirm();
    app.cursor_row = 4;
    app.cursor_col = 3;
    app.checkers_confirm();

    assert_eq!(app.checkers_input.stage, CheckersInputStage::Idle);
    assert!(app.status_message.is_some());
    let Some(ClientGameState::Checkers(ref state)) = app.game_state else {
        panic!("expected Checkers state");
    };
    assert_eq!(state.board[5][2], Square::Man(Side::Black));
    assert_eq!(state.board[4][3], Square::Empty);
}

#[test]
fn checkers_esc_cancels_selection() {
    let mut app = checkers_solo_app();
    app.checkers_confirm();
    assert_eq!(app.checkers_input.stage, CheckersInputStage::TargetSelect);
    app.checkers_cancel_selection();
    assert_eq!(app.checkers_input.stage, CheckersInputStage::Idle);
    assert!(app.checkers_input.origin.is_none());
    assert!(app.checkers_input.partial_path.is_empty());
}

#[test]
fn g_key_cycle_includes_checkers_and_snake() {
    let mut g = GameType::TicTacToe;
    let cycle = |gt: GameType| -> GameType {
        match gt {
            GameType::TicTacToe => GameType::Connect4,
            GameType::Connect4 => GameType::Checkers,
            GameType::Checkers => GameType::Snake,
            GameType::Snake => GameType::TicTacToe,
            _ => GameType::TicTacToe,
        }
    };
    g = cycle(g);
    assert_eq!(g, GameType::Connect4);
    g = cycle(g);
    assert_eq!(g, GameType::Checkers);
    g = cycle(g);
    assert_eq!(g, GameType::Snake);
    g = cycle(g);
    assert_eq!(g, GameType::TicTacToe);
}

#[test]
fn leave_solo_game() {
    let mut app = test_app();
    app.start_solo_game(Difficulty::Hard);
    app.leave_solo_game();
    assert_eq!(app.screen, Screen::Login);
    assert!(app.game_state.is_none());
    assert_eq!(app.game_mode, GameMode::Online);

    app.authenticated = true;
    app.start_solo_game(Difficulty::Hard);
    app.leave_solo_game();
    assert_eq!(app.screen, Screen::Lobby);
}

// ---------------------------------------------------------------------------
// Solo Snake
// ---------------------------------------------------------------------------

#[test]
fn solo_snake_first_tick_advances_the_game() {
    let mut app = test_app();
    app.selected_game_type = GameType::Snake;
    app.start_solo_game(Difficulty::Easy);
    app.solo_snake_last_tick = None;
    let before = match &app.game_state {
        Some(ClientGameState::Snake(s)) => s.tick,
        _ => panic!("expected Snake state"),
    };
    app.snake_queue_direction(Direction::Up);
    app.solo_snake_tick();
    let after = match &app.game_state {
        Some(ClientGameState::Snake(s)) => s.tick,
        _ => panic!("expected Snake state"),
    };
    assert_eq!(after, before + 1);
    assert!(app.solo_snake_last_tick.is_some());
}

#[test]
fn solo_snake_tick_waits_for_the_period() {
    let mut app = test_app();
    app.selected_game_type = GameType::Snake;
    app.start_solo_game(Difficulty::Easy);
    // The start just recorded a tick time: the next step is not due yet.
    let before = match &app.game_state {
        Some(ClientGameState::Snake(s)) => s.tick,
        _ => panic!("expected Snake state"),
    };
    app.solo_snake_tick();
    let after = match &app.game_state {
        Some(ClientGameState::Snake(s)) => s.tick,
        _ => panic!("expected Snake state"),
    };
    assert_eq!(after, before);
}

#[test]
fn solo_snake_tick_ignores_online_games() {
    let mut app = test_app();
    app.selected_game_type = GameType::Snake;
    app.start_solo_game(Difficulty::Easy);
    app.game_mode = GameMode::Online;
    app.solo_snake_last_tick = None;
    app.solo_snake_tick();
    assert!(app.solo_snake_last_tick.is_none());
}

// ---------------------------------------------------------------------------
// Terminal fit
// ---------------------------------------------------------------------------

fn rect(w: u16, h: u16) -> Rect {
    Rect::new(0, 0, w, h)
}

#[test]
fn ok_at_minimum_recommended_size() {
    assert_eq!(check_fit(rect(MIN_COLS, MIN_ROWS)), TerminalFit::Fits);
    assert_eq!(check_fit(rect(120, 40)), TerminalFit::Fits);
}

#[test]
fn edge_when_narrow_or_short_but_above_floor() {
    assert_eq!(check_fit(rect(MIN_COLS - 1, MIN_ROWS)), TerminalFit::Edge);
    assert_eq!(check_fit(rect(MIN_COLS, MIN_ROWS - 1)), TerminalFit::Edge);
    assert_eq!(check_fit(rect(EDGE_MIN_COLS, EDGE_MIN_ROWS)), TerminalFit::Edge);
}

#[test]
fn too_small_below_edge_floor() {
    assert_eq!(check_fit(rect(EDGE_MIN_COLS - 1, EDGE_MIN_ROWS)), TerminalFit::TooSmall);
    assert_eq!(check_fit(rect(EDGE_MIN_COLS, EDGE_MIN_ROWS - 1)), TerminalFit::TooSmall);
    assert_eq!(check_fit(rect(10, 5)), TerminalFit::TooSmall);
}

#[test]
fn per_game_minimums_tictactoe() {
    assert_eq!(check_fit_for_game(rect(30, 12), Some(GameType::TicTacToe)), TerminalFit::Fits);
    assert_eq!(check_fit_for_game(rect(29, 12), Some(GameType::TicTacToe)), TerminalFit::TooSmall);
    assert_eq!(check_fit_for_game(rect(30, 11), Some(GameType::TicTacToe)), TerminalFit::Edge);
}

#[test]
fn per_game_minimums_connect4() {
    assert_eq!(check_fit_for_game(rect(50, 18), Some(GameType::Connect4)), TerminalFit::Fits);
    assert_eq!(check_fit_for_game(rect(49, 18), Some(GameType::Connect4)), TerminalFit::Edge);
    assert_eq!(check_fit_for_game(rect(50, 17), Some(GameType::Connect4)), TerminalFit::Edge);
}

#[test]
fn per_game_minimums_snake_chess_checkers() {
    assert_eq!(check_fit_for_game(rect(80, 24), Some(GameType::Snake)), TerminalFit::Fits);
    assert_eq!(check_fit_for_game(rect(79, 24), Some(GameType::Snake)), TerminalFit::Edge);
    assert_eq!(check_fit_for_game(rect(80, 24), Some(GameType::Chess)), TerminalFit::Fits);
    assert_eq!(check_fit_for_game(rect(80, 24), Some(GameType::Checkers)), TerminalFit::Fits);
}

#[test]
fn larger_terminal_never_fits_worse() {
    let g = Some(GameType::Connect4);
    assert_eq!(check_fit_for_game(rect(50, 18), g), TerminalFit::Fits);
    assert_eq!(check_fit_for_game(rect(200, 100), g), TerminalFit::Fits);
    assert_eq!(check_fit_for_game(rect(5, 5), g), TerminalFit::TooSmall);
    assert_eq!(check_fit_for_game(rect(1, 1), g), TerminalFit::TooSmall);
}

// ---------------------------------------------------------------------------
// Snake deltas
// ---------------------------------------------------------------------------

fn empty_delta(tick: u64) -> SnakeDelta {
    SnakeDelta {
        tick,
        moves: vec![],
        grew: vec![],
        deaths: vec![],
        new_food: vec![],
        eaten_food: vec![],
        game_over: None,
    }
}

#[test]
fn snake_delta_out_of_order_drops_silently() {
    let mut app = test_app();
    let p0 = PlayerId::new();
    let p1 = PlayerId::new();
    app.my_player_id = Some(p0);
    app.game_mode = GameMode::Online;

    let mut state = SnakeEngine::initial_state(&[p0, p1], &GameSettings::default());
    state.tick = 5;
    app.game_state = Some(ClientGameState::Snake(state));
    app.snake_last_applied_tick = Some(5);

    let delta = empty_delta(5);
    app.on_snake_delta(&delta);

    let Some(ClientGameState::Snake(ref state)) = app.game_state else {
        panic!("expected Snake state");
    };
    assert_eq!(state.tick, 5);
    assert_eq!(app.snake_last_applied_tick, Some(5));
}

#[test]
fn snake_delta_in_order_is_replayed() {
    let mut app = test_app();
    let p0 = PlayerId::new();
    let p1 = PlayerId::new();
    app.my_player_id = Some(p0);
    app.game_mode = GameMode::Online;
    let state = SnakeEngine::initial_state(&[p0, p1], &GameSettings::default());
    let head0 = state.snakes[0].body[0];
    let len0 = state.snakes[0].body.len();
    let food0 = state.food.len();
    let tick0 = state.tick;
    app.game_state = Some(ClientGameState::Snake(state));

    let new_head = Cell { x: head0.x + 1, y: head0.y };
    let mut delta = empty_delta(tick0 + 1);
    delta.moves = vec![(p0, new_head)];
    delta.grew = vec![p0];
    delta.deaths = vec![p1];
    delta.new_food = vec![Cell { x: 0, y: 0 }];
    delta.game_over = Some(GameOutcome::Win(p0));
    app.on_snake_delta(&delta);

    let Some(ClientGameState::Snake(ref st)) = app.game_state else {
        panic!("expected Snake state");
    };
    assert_eq!(st.tick, tick0 + 1);
    assert_eq!(st.snakes[0].body[0], new_head);
    assert_eq!(st.snakes[0].body.len(), len0 + 1);
    assert_eq!(st.snakes[0].score, 1);
    assert!(!st.snakes[1].alive);
    assert_eq!(st.food.len(), food0 + 1);
    assert_eq!(app.snake_last_applied_tick, Some(tick0 + 1));
    assert_eq!(app.game_over, Some(GameOutcome::Win(p0)));
}

#[test]
fn replaying_a_tick_matches_the_engine() {
    let p0 = PlayerId::new();
    let p1 = PlayerId::new();
    let settings = GameSettings::default();
    let server_start = SnakeEngine::initial_state(&[p0, p1], &settings);
    let mut server = SnakeEngine::snapshot(&server_start);
    let mut client = SnakeEngine::snapshot(&server_start);
    for _ in 0..20 {
        let delta = SnakeEngine::tick(&mut server, &HashMap::new());
        apply_delta(&mut client, &delta);
        assert_eq!(client.tick, server.tick);
        assert_eq!(client.food, server.food);
        for i in 0..2 {
            assert_eq!(client.snakes[i].body, server.snakes[i].body);
            assert_eq!(client.snakes[i].alive, server.snakes[i].alive);
            assert_eq!(client.snakes[i].score, server.snakes[i].score);
        }
        if server.game_over.is_some() {
            break;
        }
    }
}

// ---------------------------------------------------------------------------
// Room and game events
// ---------------------------------------------------------------------------

fn room(n: u8) -> game_center::messages::RoomSummary {
    game_center::messages::RoomSummary {
        id: RoomId::new(),
        game_type: GameType::TicTacToe,
        player_count: n,
        max_players: 2,
        state: game_center::types::RoomState::Waiting,
        host_name: "alice".to_string(),
    }
}

#[test]
fn update_rooms_clamps_the_selection() {
    let mut app = test_app();
    app.selected_room = 5;
    app.update_rooms(vec![room(1), room(2)]);
    assert_eq!(app.rooms.len(), 2);
    assert_eq!(app.selected_room, 1);
    app.update_rooms(vec![]);
    assert_eq!(app.selected_room, 1);
}

#[test]
fn game_over_reports_win_loss_and_draw() {
    let mut app = test_app();
    let me = PlayerId::new();
    let other = PlayerId::new();
    app.my_player_id = Some(me);
    app.current_game_type = GameType::Connect4;
    assert_eq!(app.on_game_over(GameOutcome::Win(me)), ("Connect 4", "win"));
    assert_eq!(app.on_game_over(GameOutcome::Win(other)), ("Connect 4", "loss"));
    assert_eq!(app.on_game_over(GameOutcome::Draw), ("Connect 4", "draw"));
    assert_eq!(app.game_over, Some(GameOutcome::Draw));
}

#[test]
fn players_join_once_and_leave() {
    let mut app = test_app();
    let p = PlayerInfo { id: PlayerId::new(), username: "bob".to_string() };
    let q = PlayerInfo { id: PlayerId::new(), username: "carol".to_string() };
    app.on_player_joined(p.clone());
    app.on_player_joined(p.clone());
    app.on_player_joined(q.clone());
    assert_eq!(app.current_room_players.len(), 2);
    app.rematch_pending = true;
    app.on_player_left(p.id);
    assert_eq!(app.current_room_players.len(), 1);
    assert_eq!(app.current_room_players[0].id, q.id);
    assert!(!app.rematch_pending);
}

#[test]
fn rematch_declined_returns_to_lobby() {
    let mut app = test_app();
    app.screen = Screen::InGame;
    app.current_room_id = Some(RoomId::new());
    app.on_rematch_declined();
    assert_eq!(app.screen, Screen::Lobby);
    assert!(app.current_room_id.is_none());
    assert!(app.game_state.is_none());
}

#[test]
fn our_turn_follows_the_game() {
    let mut app = test_app();
    assert!(!app.is_our_turn());
    app.start_solo_game(Difficulty::Easy);
    // After the start (and the bot's opening, if it moved first) it is our turn.
    assert!(app.is_our_turn());
}

#[test]
fn toggle_field_alternates() {
    let mut app = test_app();
    let first = app.active_field;
    app.toggle_field();
    assert_ne!(app.active_field, first);
    app.toggle_field();
    assert_eq!(app.active_field, first);
}

#[test]
fn unicode_white_space_only_username_is_empty() {
    let mut app = test_app();
    app.password_input = "password123".to_string();
    app.username_input = "\u{3000} \t\u{00A0}\u{2028}".to_string();
    assert!(app.validate_login_form().is_some());
    app.username_input = "\u{3000} bob \u{00A0}".to_string();
    assert!(app.validate_login_form().is_none());
}
