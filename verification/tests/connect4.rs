use game_center::connect4::{bot_move, score_window, Cell, Connect4, Connect4Move, Connect4State, COLS};
use Cell::{Empty, Red, Yellow};
use game_center::types::{Difficulty, GameOutcome, GameSettings, PlayerId};

fn two_players() -> [PlayerId; 2] {
    [PlayerId::new(), PlayerId::new()]
}

fn new_game() -> Connect4State {
    let p = two_players();
    Connect4::initial_state(&p, &GameSettings::default())
}

#[test]
fn connect4_initial_state_is_empty() {
    let state = new_game();
    for row in &state.board {
        for cell in row {
            assert_eq!(*cell, Cell::Empty);
        }
    }
    assert_eq!(state.move_count, 0);
    assert_eq!(state.current_turn, 0);
}

#[test]
fn piece_falls_to_bottom() {
    let mut state = new_game();
    let p0 = state.players[0];
    Connect4::apply_move(&mut state, p0, &Connect4Move { col: 3 });
    // Should land on row 0
    assert_eq!(state.board[0][3], Cell::Red);
    assert_eq!(state.board[1][3], Cell::Empty);
}

#[test]
fn pieces_stack() {
    let mut state = new_game();
    let p0 = state.players[0];
    let p1 = state.players[1];
    Connect4::apply_move(&mut state, p0, &Connect4Move { col: 3 });
    Connect4::apply_move(&mut state, p1, &Connect4Move { col: 3 });
    assert_eq!(state.board[0][3], Cell::Red);
    assert_eq!(state.board[1][3], Cell::Yellow);
}

#[test]
fn full_column_rejected() {
    let mut state = new_game();
    let p0 = state.players[0];
    let p1 = state.players[1];
    // Fill column 0
    for _ in 0..3 {
        Connect4::apply_move(&mut state, p0, &Connect4Move { col: 0 });
        Connect4::apply_move(&mut state, p1, &Connect4Move { col: 0 });
    }
    // Column 0 is now full (6 pieces)
    assert!(Connect4::validate_move(&state, p0, &Connect4Move { col: 0 }).is_err());
}

#[test]
fn column_out_of_bounds_rejected() {
    let state = new_game();
    let p0 = state.players[0];
    assert!(Connect4::validate_move(&state, p0, &Connect4Move { col: 7 }).is_err());
}

#[test]
fn connect4_wrong_turn_rejected() {
    let state = new_game();
    let p1 = state.players[1];
    assert!(Connect4::validate_move(&state, p1, &Connect4Move { col: 0 }).is_err());
}

#[test]
fn horizontal_win() {
    let mut state = new_game();
    let p0 = state.players[0];
    let p1 = state.players[1];
    // Red: 0,1,2,3 on row 0; Yellow: 0,1,2 on row 1
    Connect4::apply_move(&mut state, p0, &Connect4Move { col: 0 });
    Connect4::apply_move(&mut state, p1, &Connect4Move { col: 0 });
    Connect4::apply_move(&mut state, p0, &Connect4Move { col: 1 });
    Connect4::apply_move(&mut state, p1, &Connect4Move { col: 1 });
    Connect4::apply_move(&mut state, p0, &Connect4Move { col: 2 });
    Connect4::apply_move(&mut state, p1, &Connect4Move { col: 2 });
    Connect4::apply_move(&mut state, p0, &Connect4Move { col: 3 });

    match Connect4::is_terminal(&state) {
        Some(GameOutcome::Win(winner)) => assert_eq!(winner, p0),
        other => panic!("expected Red win, got {other:?}"),
    }
}

#[test]
fn vertical_win() {
    let mut state = new_game();
    let p0 = state.players[0];
    let p1 = state.players[1];
    // Red plays col 0 four times, Yellow plays col 1
    Connect4::apply_move(&mut state, p0, &Connect4Move { col: 0 });
    Connect4::apply_move(&mut state, p1, &Connect4Move { col: 1 });
    Connect4::apply_move(&mut state, p0, &Connect4Move { col: 0 });
    Connect4::apply_move(&mut state, p1, &Connect4Move { col: 1 });
    Connect4::apply_move(&mut state, p0, &Connect4Move { col: 0 });
    Connect4::apply_move(&mut state, p1, &Connect4Move { col: 1 });
    Connect4::apply_move(&mut state, p0, &Connect4Move { col: 0 });

    match Connect4::is_terminal(&state) {
        Some(GameOutcome::Win(winner)) => assert_eq!(winner, p0),
        other => panic!("expected Red win, got {other:?}"),
    }
}

#[test]
fn connect4_diagonal_win() {
    let mut state = new_game();
    let p0 = state.players[0];
    let p1 = state.players[1];
    // Build a diagonal: Red at (0,0),(1,1),(2,2),(3,3)
    // Col 0: R
    Connect4::apply_move(&mut state, p0, &Connect4Move { col: 0 }); // (0,0) R
    // Col 1: Y, R
    Connect4::apply_move(&mut state, p1, &Connect4Move { col: 1 }); // (0,1) Y
    Connect4::apply_move(&mut state, p0, &Connect4Move { col: 1 }); // (1,1) R
    // Col 2: Y, Y, R
    Connect4::apply_move(&mut state, p1, &Connect4Move { col: 2 }); // (0,2) Y
    Connect4::apply_move(&mut state, p0, &Connect4Move { col: 3 }); // (0,3) R — placeholder
    Connect4::apply_move(&mut state, p1, &Connect4Move { col: 2 }); // (1,2) Y
    Connect4::apply_move(&mut state, p0, &Connect4Move { col: 2 }); // (2,2) R
    // Col 3: Y, Y, Y, R
    Connect4::apply_move(&mut state, p1, &Connect4Move { col: 3 }); // (1,3) Y
    Connect4::apply_move(&mut state, p0, &Connect4Move { col: 4 }); // placeholder
    Connect4::apply_move(&mut state, p1, &Connect4Move { col: 3 }); // (2,3) Y
    Connect4::apply_move(&mut state, p0, &Connect4Move { col: 3 }); // (3,3) R — diagonal complete

    match Connect4::is_terminal(&state) {
        Some(GameOutcome::Win(winner)) => assert_eq!(winner, p0),
        other => panic!("expected Red diagonal win, got {other:?}"),
    }
}

#[test]
fn no_win_mid_game() {
    let mut state = new_game();
    let p0 = state.players[0];
    Connect4::apply_move(&mut state, p0, &Connect4Move { col: 3 });
    assert!(Connect4::is_terminal(&state).is_none());
}

#[test]
fn connect4_current_player_alternates() {
    let mut state = new_game();
    let p0 = state.players[0];
    let p1 = state.players[1];

    assert_eq!(Connect4::current_player(&state), p0);
    Connect4::apply_move(&mut state, p0, &Connect4Move { col: 0 });
    assert_eq!(Connect4::current_player(&state), p1);
    Connect4::apply_move(&mut state, p1, &Connect4Move { col: 1 });
    assert_eq!(Connect4::current_player(&state), p0);
}

#[test]
fn connect4_bot_easy_returns_valid_move() {
    let state = new_game();
    let mv = bot_move(&state, Difficulty::Easy);
    assert!((mv.col as usize) < COLS);
    assert_eq!(state.board[0][mv.col as usize], Cell::Empty);
}

#[test]
fn connect4_bot_hard_returns_valid_move() {
    let state = new_game();
    let mv = bot_move(&state, Difficulty::Hard);
    assert!((mv.col as usize) < COLS);
    assert_eq!(state.board[0][mv.col as usize], Cell::Empty);
}

#[test]
fn connect4_bot_hard_takes_winning_move() {
    let mut state = new_game();
    let p0 = state.players[0];
    let p1 = state.players[1];
    // Red has 3 in a row on bottom: cols 0,1,2
    Connect4::apply_move(&mut state, p0, &Connect4Move { col: 0 });
    Connect4::apply_move(&mut state, p1, &Connect4Move { col: 0 });
    Connect4::apply_move(&mut state, p0, &Connect4Move { col: 1 });
    Connect4::apply_move(&mut state, p1, &Connect4Move { col: 1 });
    Connect4::apply_move(&mut state, p0, &Connect4Move { col: 2 });
    Connect4::apply_move(&mut state, p1, &Connect4Move { col: 2 });
    // Red's turn, should play col 3 to win
    let mv = bot_move(&state, Difficulty::Hard);
    assert_eq!(mv.col, 3);
}

#[test]
fn bot_hard_blocks_opponent_win() {
    let mut state = new_game();
    let p0 = state.players[0];
    let p1 = state.players[1];
    // Red: col 6 (dump move), Yellow: cols 0,1,2 — Yellow threatens col 3
    Connect4::apply_move(&mut state, p0, &Connect4Move { col: 6 });
    Connect4::apply_move(&mut state, p1, &Connect4Move { col: 0 });
    Connect4::apply_move(&mut state, p0, &Connect4Move { col: 6 });
    Connect4::apply_move(&mut state, p1, &Connect4Move { col: 1 });
    Connect4::apply_move(&mut state, p0, &Connect4Move { col: 5 });
    Connect4::apply_move(&mut state, p1, &Connect4Move { col: 2 });
    // Red's turn — must block col 3
    let mv = bot_move(&state, Difficulty::Hard);
    assert_eq!(mv.col, 3);
}


#[test]
fn score_window_values() {
    assert_eq!(score_window(Red, Red, Red, Red), 100);
    assert_eq!(score_window(Red, Red, Red, Empty), 5);
    assert_eq!(score_window(Empty, Red, Empty, Red), 2);
    assert_eq!(score_window(Yellow, Yellow, Yellow, Empty), -5);
    assert_eq!(score_window(Yellow, Yellow, Yellow, Yellow), -100);
    assert_eq!(score_window(Red, Yellow, Red, Red), 0);
    assert_eq!(score_window(Empty, Empty, Empty, Empty), 0);
}

#[test]
fn connect4_validate_error_messages() {
    let mut state = new_game();
    let p0 = state.players[0];
    let p1 = state.players[1];
    assert_eq!(
        Connect4::validate_move(&state, p1, &Connect4Move { col: 0 }).unwrap_err(),
        "not your turn"
    );
    for _ in 0..3 {
        Connect4::apply_move(&mut state, p0, &Connect4Move { col: 0 });
        Connect4::apply_move(&mut state, p1, &Connect4Move { col: 0 });
    }
    assert!(Connect4::validate_move(&state, p0, &Connect4Move { col: 1 }).is_ok());
}

#[test]
fn vertical_four_for_yellow() {
    let mut state = new_game();
    let p0 = state.players[0];
    let p1 = state.players[1];
    for c in [0u8, 6, 0, 6, 0, 6, 1, 6] {
        let p = Connect4::current_player(&state);
        assert!(Connect4::validate_move(&state, p, &Connect4Move { col: c }).is_ok());
        Connect4::apply_move(&mut state, p, &Connect4Move { col: c });
    }
    assert_eq!(Connect4::is_terminal(&state), Some(GameOutcome::Win(p1)));
    assert_eq!(state.board[3][6], Cell::Yellow);
    let _ = p0;
}
