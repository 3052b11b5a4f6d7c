use game_center::tictactoe::{bot_move, Cell, TicTacToe, TicTacToeMove, TicTacToeState};
use game_center::types::{Difficulty, GameOutcome, GameSettings, PlayerId};

fn two_players() -> [PlayerId; 2] {
    [PlayerId::new(), PlayerId::new()]
}

fn new_game() -> TicTacToeState {
    let p = two_players();
    TicTacToe::initial_state(&p, &GameSettings::default())
}

#[test]
fn tictactoe_initial_state_is_empty() {
    let state = new_game();
    for row in &state.board {
        for cell in row {
            assert_eq!(*cell, Cell::Empty);
        }
    }
    assert_eq!(state.move_count, 0);
    assert_eq!(state.current_turn, 0);
}

#[test]
fn valid_move_applies() {
    let mut state = new_game();
    let player = state.players[0];
    let mv = TicTacToeMove { row: 1, col: 1 };

    assert!(TicTacToe::validate_move(&state, player, &mv).is_ok());
    TicTacToe::apply_move(&mut state, player, &mv);

    assert_eq!(state.board[1][1], Cell::X);
    assert_eq!(state.current_turn, 1);
    assert_eq!(state.move_count, 1);
}

#[test]
fn tictactoe_wrong_turn_rejected() {
    let state = new_game();
    let wrong_player = state.players[1]; // O tries to go first
    let mv = TicTacToeMove { row: 0, col: 0 };
    assert!(TicTacToe::validate_move(&state, wrong_player, &mv).is_err());
}

#[test]
fn occupied_cell_rejected() {
    let mut state = new_game();
    let p0 = state.players[0];
    let p1 = state.players[1];
    let mv = TicTacToeMove { row: 0, col: 0 };

    TicTacToe::apply_move(&mut state, p0, &mv);
    assert!(TicTacToe::validate_move(&state, p1, &mv).is_err());
}

#[test]
fn out_of_bounds_rejected() {
    let state = new_game();
    let player = state.players[0];
    let mv = TicTacToeMove { row: 3, col: 0 };
    assert!(TicTacToe::validate_move(&state, player, &mv).is_err());
}

#[test]
fn row_win() {
    let mut state = new_game();
    let p0 = state.players[0];
    let p1 = state.players[1];

    // X: (0,0), O: (1,0), X: (0,1), O: (1,1), X: (0,2)
    TicTacToe::apply_move(&mut state, p0, &TicTacToeMove { row: 0, col: 0 });
    TicTacToe::apply_move(&mut state, p1, &TicTacToeMove { row: 1, col: 0 });
    TicTacToe::apply_move(&mut state, p0, &TicTacToeMove { row: 0, col: 1 });
    TicTacToe::apply_move(&mut state, p1, &TicTacToeMove { row: 1, col: 1 });
    TicTacToe::apply_move(&mut state, p0, &TicTacToeMove { row: 0, col: 2 });

    match TicTacToe::is_terminal(&state) {
        Some(GameOutcome::Win(winner)) => assert_eq!(winner, p0),
        other => panic!("expected X win, got {other:?}"),
    }
}

#[test]
fn column_win() {
    let mut state = new_game();
    let p0 = state.players[0];
    let p1 = state.players[1];

    // X: (0,0), O: (0,1), X: (1,0), O: (1,1), X: (2,0)
    TicTacToe::apply_move(&mut state, p0, &TicTacToeMove { row: 0, col: 0 });
    TicTacToe::apply_move(&mut state, p1, &TicTacToeMove { row: 0, col: 1 });
    TicTacToe::apply_move(&mut state, p0, &TicTacToeMove { row: 1, col: 0 });
    TicTacToe::apply_move(&mut state, p1, &TicTacToeMove { row: 1, col: 1 });
    TicTacToe::apply_move(&mut state, p0, &TicTacToeMove { row: 2, col: 0 });

    match TicTacToe::is_terminal(&state) {
        Some(GameOutcome::Win(winner)) => assert_eq!(winner, p0),
        other => panic!("expected X win, got {other:?}"),
    }
}

#[test]
fn tictactoe_diagonal_win() {
    let mut state = new_game();
    let p0 = state.players[0];
    let p1 = state.players[1];

    // X: (0,0), O: (0,1), X: (1,1), O: (0,2), X: (2,2)
    TicTacToe::apply_move(&mut state, p0, &TicTacToeMove { row: 0, col: 0 });
    TicTacToe::apply_move(&mut state, p1, &TicTacToeMove { row: 0, col: 1 });
    TicTacToe::apply_move(&mut state, p0, &TicTacToeMove { row: 1, col: 1 });
    TicTacToe::apply_move(&mut state, p1, &TicTacToeMove { row: 0, col: 2 });
    TicTacToe::apply_move(&mut state, p0, &TicTacToeMove { row: 2, col: 2 });

    match TicTacToe::is_terminal(&state) {
        Some(GameOutcome::Win(winner)) => assert_eq!(winner, p0),
        other => panic!("expected X win, got {other:?}"),
    }
}

#[test]
fn anti_diagonal_win() {
    let mut state = new_game();
    let p0 = state.players[0];
    let p1 = state.players[1];

    // X: (0,2), O: (0,0), X: (1,1), O: (1,0), X: (2,0)
    TicTacToe::apply_move(&mut state, p0, &TicTacToeMove { row: 0, col: 2 });
    TicTacToe::apply_move(&mut state, p1, &TicTacToeMove { row: 0, col: 0 });
    TicTacToe::apply_move(&mut state, p0, &TicTacToeMove { row: 1, col: 1 });
    TicTacToe::apply_move(&mut state, p1, &TicTacToeMove { row: 1, col: 0 });
    TicTacToe::apply_move(&mut state, p0, &TicTacToeMove { row: 2, col: 0 });

    match TicTacToe::is_terminal(&state) {
        Some(GameOutcome::Win(winner)) => assert_eq!(winner, p0),
        other => panic!("expected X win, got {other:?}"),
    }
}

#[test]
fn draw() {
    let mut state = new_game();
    let p0 = state.players[0];
    let p1 = state.players[1];

    // X O X
    // X X O
    // O X O
    TicTacToe::apply_move(&mut state, p0, &TicTacToeMove { row: 0, col: 0 }); // X
    TicTacToe::apply_move(&mut state, p1, &TicTacToeMove { row: 0, col: 1 }); // O
    TicTacToe::apply_move(&mut state, p0, &TicTacToeMove { row: 0, col: 2 }); // X
    TicTacToe::apply_move(&mut state, p1, &TicTacToeMove { row: 1, col: 2 }); // O
    TicTacToe::apply_move(&mut state, p0, &TicTacToeMove { row: 1, col: 0 }); // X
    TicTacToe::apply_move(&mut state, p1, &TicTacToeMove { row: 2, col: 0 }); // O
    TicTacToe::apply_move(&mut state, p0, &TicTacToeMove { row: 1, col: 1 }); // X
    TicTacToe::apply_move(&mut state, p1, &TicTacToeMove { row: 2, col: 2 }); // O
    TicTacToe::apply_move(&mut state, p0, &TicTacToeMove { row: 2, col: 1 }); // X

    match TicTacToe::is_terminal(&state) {
        Some(GameOutcome::Draw) => {}
        other => panic!("expected draw, got {other:?}"),
    }
}

#[test]
fn not_terminal_mid_game() {
    let mut state = new_game();
    let p0 = state.players[0];
    TicTacToe::apply_move(&mut state, p0, &TicTacToeMove { row: 1, col: 1 });
    assert!(TicTacToe::is_terminal(&state).is_none());
}

#[test]
fn tictactoe_current_player_alternates() {
    let mut state = new_game();
    let p0 = state.players[0];
    let p1 = state.players[1];

    assert_eq!(TicTacToe::current_player(&state), p0);
    TicTacToe::apply_move(&mut state, p0, &TicTacToeMove { row: 0, col: 0 });
    assert_eq!(TicTacToe::current_player(&state), p1);
    TicTacToe::apply_move(&mut state, p1, &TicTacToeMove { row: 1, col: 1 });
    assert_eq!(TicTacToe::current_player(&state), p0);
}

#[test]
fn tictactoe_bot_easy_returns_valid_move() {
    let state = new_game();
    let mv = bot_move(&state, Difficulty::Easy);
    assert!(mv.row <= 2 && mv.col <= 2);
    assert_eq!(state.board[mv.row as usize][mv.col as usize], Cell::Empty);
}

#[test]
fn tictactoe_bot_hard_returns_valid_move() {
    let state = new_game();
    let mv = bot_move(&state, Difficulty::Hard);
    assert!(mv.row <= 2 && mv.col <= 2);
    assert_eq!(state.board[mv.row as usize][mv.col as usize], Cell::Empty);
}

#[test]
fn bot_hard_blocks_winning_move() {
    // O has two in a row, X (hard bot) should block
    let mut state = new_game();
    let p0 = state.players[0];
    let p1 = state.players[1];

    // X: (0,0), O: (1,0), X: (2,2), O: (1,1) — O threatens (1,2)
    TicTacToe::apply_move(&mut state, p0, &TicTacToeMove { row: 0, col: 0 });
    TicTacToe::apply_move(&mut state, p1, &TicTacToeMove { row: 1, col: 0 });
    TicTacToe::apply_move(&mut state, p0, &TicTacToeMove { row: 2, col: 2 });
    TicTacToe::apply_move(&mut state, p1, &TicTacToeMove { row: 1, col: 1 });

    // It's X's turn. Hard bot should make a strategic move.
    let mv = bot_move(&state, Difficulty::Hard);
    let player = state.players[state.current_turn];
    assert!(TicTacToe::validate_move(&state, player, &mv).is_ok());
}

#[test]
fn tictactoe_bot_hard_takes_winning_move() {
    // X has two in a row, hard bot (as X) should win
    let mut state = new_game();
    let p0 = state.players[0];
    let p1 = state.players[1];

    // X: (0,0), O: (1,0), X: (0,1), O: (1,1)
    TicTacToe::apply_move(&mut state, p0, &TicTacToeMove { row: 0, col: 0 });
    TicTacToe::apply_move(&mut state, p1, &TicTacToeMove { row: 1, col: 0 });
    TicTacToe::apply_move(&mut state, p0, &TicTacToeMove { row: 0, col: 1 });
    TicTacToe::apply_move(&mut state, p1, &TicTacToeMove { row: 1, col: 1 });

    // X should play (0,2) to win
    let mv = bot_move(&state, Difficulty::Hard);
    assert_eq!(mv.row, 0);
    assert_eq!(mv.col, 2);
}

#[test]
fn full_game_hard_vs_hard_is_draw() {
    // Two perfect players should always draw
    let mut state = new_game();
    loop {
        if TicTacToe::is_terminal(&state).is_some() {
            break;
        }
        let mv = bot_move(&state, Difficulty::Hard);
        let player = state.players[state.current_turn];
        TicTacToe::apply_move(&mut state, player, &mv);
    }
    match TicTacToe::is_terminal(&state) {
        Some(GameOutcome::Draw) => {}
        other => panic!("expected draw from perfect play, got {other:?}"),
    }
}


#[test]
fn tictactoe_validate_error_messages() {
    let mut state = new_game();
    let p0 = state.players[0];
    let p1 = state.players[1];
    assert_eq!(
        TicTacToe::validate_move(&state, p1, &TicTacToeMove { row: 0, col: 0 }).unwrap_err(),
        "not your turn"
    );
    assert_eq!(
        TicTacToe::validate_move(&state, p0, &TicTacToeMove { row: 0, col: 3 }).unwrap_err(),
        "position out of bounds"
    );
    TicTacToe::apply_move(&mut state, p0, &TicTacToeMove { row: 0, col: 0 });
    assert_eq!(
        TicTacToe::validate_move(&state, p1, &TicTacToeMove { row: 0, col: 0 }).unwrap_err(),
        "cell already occupied"
    );
}

#[test]
fn o_wins_a_column() {
    let mut state = new_game();
    let p0 = state.players[0];
    let p1 = state.players[1];
    for (r, c) in [(0u8, 0u8), (0, 1), (2, 2), (1, 1), (0, 2), (2, 1)] {
        let p = TicTacToe::current_player(&state);
        TicTacToe::apply_move(&mut state, p, &TicTacToeMove { row: r, col: c });
    }
    assert_eq!(TicTacToe::is_terminal(&state), Some(GameOutcome::Win(p1)));
    assert_eq!(state.move_count, 6);
    let _ = p0;
}

#[test]
fn hard_bot_blocks_the_open_line() {
    let mut state = new_game();
    let p0 = state.players[0];
    let p1 = state.players[1];
    TicTacToe::apply_move(&mut state, p0, &TicTacToeMove { row: 0, col: 0 });
    TicTacToe::apply_move(&mut state, p1, &TicTacToeMove { row: 1, col: 1 });
    TicTacToe::apply_move(&mut state, p0, &TicTacToeMove { row: 2, col: 2 });
    TicTacToe::apply_move(&mut state, p1, &TicTacToeMove { row: 0, col: 1 });
    // O threatens the middle column; X must take (2,1).
    let mv = bot_move(&state, Difficulty::Hard);
    assert_eq!((mv.row, mv.col), (2, 1));
}
