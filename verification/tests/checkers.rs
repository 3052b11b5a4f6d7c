use game_center::checkers::{
    bot_move, is_dark_square, legal_moves, Checkers, CheckersMove, CheckersState, Position, Side,
    Square, BOARD_SIZE, DRAW_PLY_LIMIT,
};
use game_center::types::{Difficulty, GameOutcome, GameSettings, PlayerId};

fn two_players() -> [PlayerId; 2] {
    [PlayerId::new(), PlayerId::new()]
}

fn new_game() -> CheckersState {
    Checkers::initial_state(&two_players(), &GameSettings::default())
}

fn pos(r: u8, c: u8) -> Position {
    Position { row: r, col: c }
}

fn empty_state() -> CheckersState {
    let mut s = new_game();
    s.board = [[Square::Empty; BOARD_SIZE]; BOARD_SIZE];
    s
}

#[test]
fn initial_state_layout_correct() {
    let s = new_game();
    for r in 0..3 {
        for c in 0..BOARD_SIZE {
            if is_dark_square(r, c) {
                assert_eq!(s.board[r][c], Square::Man(Side::Red));
            } else {
                assert_eq!(s.board[r][c], Square::Empty);
            }
        }
    }
    for r in 3..5 {
        for c in 0..BOARD_SIZE {
            assert_eq!(s.board[r][c], Square::Empty);
        }
    }
    for r in 5..BOARD_SIZE {
        for c in 0..BOARD_SIZE {
            if is_dark_square(r, c) {
                assert_eq!(s.board[r][c], Square::Man(Side::Black));
            } else {
                assert_eq!(s.board[r][c], Square::Empty);
            }
        }
    }
    assert_eq!(s.current_turn, 0);
    assert_eq!(s.move_count, 0);
    assert_eq!(s.plies_since_progress, 0);
}

#[test]
fn black_moves_first() {
    let s = new_game();
    assert_eq!(Checkers::current_player(&s), s.players[0]);
}

#[test]
fn man_diagonal_forward_step() {
    let mut s = new_game();
    let p0 = s.players[0];
    let mv = CheckersMove {
        path: vec![pos(5, 0), pos(4, 1)],
    };
    assert!(Checkers::validate_move(&s, p0, &mv).is_ok());
    Checkers::apply_move(&mut s, p0, &mv);
    assert_eq!(s.board[4][1], Square::Man(Side::Black));
    assert_eq!(s.board[5][0], Square::Empty);
    assert_eq!(s.current_turn, 1);
}

#[test]
fn man_backward_step_rejected() {
    let mut s = empty_state();
    s.board[4][1] = Square::Man(Side::Black);
    s.current_turn = 0;
    let mv = CheckersMove {
        path: vec![pos(4, 1), pos(5, 2)],
    };
    assert!(Checkers::validate_move(&s, s.players[0], &mv).is_err());
}

#[test]
fn man_capture_mandatory() {
    let mut s = empty_state();
    s.board[5][0] = Square::Man(Side::Black);
    s.board[4][1] = Square::Man(Side::Red);
    // (3,2) is dark (3+2=5 odd) empty — jump available.
    s.current_turn = 0;
    // Non-capture step rejected.
    let step = CheckersMove {
        path: vec![pos(5, 0), pos(4, 1)],
    };
    assert!(Checkers::validate_move(&s, s.players[0], &step).is_err());
    // A different non-capture (on a distinct piece) also rejected.
    s.board[5][2] = Square::Man(Side::Black);
    let step2 = CheckersMove {
        path: vec![pos(5, 2), pos(4, 3)],
    };
    assert!(Checkers::validate_move(&s, s.players[0], &step2).is_err());
    // Capture accepted.
    let jump = CheckersMove {
        path: vec![pos(5, 0), pos(3, 2)],
    };
    assert!(Checkers::validate_move(&s, s.players[0], &jump).is_ok());
}

#[test]
fn multi_jump_chain_accepted() {
    let mut s = empty_state();
    s.board[5][0] = Square::Man(Side::Black);
    s.board[4][1] = Square::Man(Side::Red);
    s.board[2][3] = Square::Man(Side::Red);
    s.current_turn = 0;
    let mv = CheckersMove {
        path: vec![pos(5, 0), pos(3, 2), pos(1, 4)],
    };
    let p0 = s.players[0];
    assert!(Checkers::validate_move(&s, p0, &mv).is_ok());
    Checkers::apply_move(&mut s, p0, &mv);
    // Landed on row 1 (not yet row 0). Piece still a man.
    assert_eq!(s.board[1][4], Square::Man(Side::Black));
    assert_eq!(s.board[4][1], Square::Empty);
    assert_eq!(s.board[2][3], Square::Empty);
    assert_eq!(s.plies_since_progress, 0);
}

#[test]
fn stopping_mid_chain_rejected() {
    let mut s = empty_state();
    s.board[5][0] = Square::Man(Side::Black);
    s.board[4][1] = Square::Man(Side::Red);
    s.board[2][3] = Square::Man(Side::Red);
    s.current_turn = 0;
    let short = CheckersMove {
        path: vec![pos(5, 0), pos(3, 2)],
    };
    assert!(Checkers::validate_move(&s, s.players[0], &short).is_err());
}

#[test]
fn king_backward_capture_legal() {
    let mut s = empty_state();
    // Black king at (3,2); Red man at (4,3); landing (5,4). All dark squares.
    s.board[3][2] = Square::King(Side::Black);
    s.board[4][3] = Square::Man(Side::Red);
    s.current_turn = 0;
    let mv = CheckersMove {
        path: vec![pos(3, 2), pos(5, 4)],
    };
    let p0 = s.players[0];
    assert!(Checkers::validate_move(&s, p0, &mv).is_ok());
    Checkers::apply_move(&mut s, p0, &mv);
    assert_eq!(s.board[5][4], Square::King(Side::Black));
    assert_eq!(s.board[4][3], Square::Empty);
}

#[test]
fn king_promotion_on_reaching_back_row() {
    let mut s = empty_state();
    s.board[1][0] = Square::Man(Side::Black);
    s.current_turn = 0;
    let mv = CheckersMove {
        path: vec![pos(1, 0), pos(0, 1)],
    };
    let p0 = s.players[0];
    assert!(Checkers::validate_move(&s, p0, &mv).is_ok());
    Checkers::apply_move(&mut s, p0, &mv);
    assert_eq!(s.board[0][1], Square::King(Side::Black));
    assert_eq!(s.plies_since_progress, 0);
}

#[test]
fn promotion_ends_jump_chain() {
    let mut s = empty_state();
    // Black man at (2,1). Red at (1,2). After jump lands at (0,3) = promote.
    // Place another Red at (1,4) that would be jumpable as a king from (0,3)?
    // From (0,3) king could jump to (2,5) over (1,4). But promotion ends chain.
    s.board[2][1] = Square::Man(Side::Black);
    s.board[1][2] = Square::Man(Side::Red);
    s.board[1][4] = Square::Man(Side::Red);
    s.current_turn = 0;
    // Stopping on promotion must be OK.
    let stop = CheckersMove {
        path: vec![pos(2, 1), pos(0, 3)],
    };
    assert!(Checkers::validate_move(&s, s.players[0], &stop).is_ok());
    // Attempting to continue after promotion must fail.
    let cont = CheckersMove {
        path: vec![pos(2, 1), pos(0, 3), pos(2, 5)],
    };
    assert!(Checkers::validate_move(&s, s.players[0], &cont).is_err());
}

#[test]
fn forty_ply_rule_triggers_draw() {
    let mut s = empty_state();
    s.board[3][0] = Square::King(Side::Black);
    s.board[3][6] = Square::King(Side::Red);
    s.current_turn = 0;
    s.plies_since_progress = DRAW_PLY_LIMIT;
    match Checkers::is_terminal(&s) {
        Some(GameOutcome::Draw) => {}
        other => panic!("expected draw, got {other:?}"),
    }
}

#[test]
fn no_legal_moves_means_loss() {
    let mut s = empty_state();
    // Single Black Man on its own king row (row 0) — no forward squares exist.
    s.board[0][1] = Square::Man(Side::Black);
    s.current_turn = 0;
    assert!(legal_moves(&s).is_empty());
    match Checkers::is_terminal(&s) {
        Some(GameOutcome::Win(w)) => assert_eq!(w, s.players[1]),
        other => panic!("expected red win, got {other:?}"),
    }
}

#[test]
fn checkers_current_player_alternates() {
    let mut s = new_game();
    let p0 = s.players[0];
    let p1 = s.players[1];
    assert_eq!(Checkers::current_player(&s), p0);
    let mv = CheckersMove {
        path: vec![pos(5, 0), pos(4, 1)],
    };
    Checkers::apply_move(&mut s, p0, &mv);
    assert_eq!(Checkers::current_player(&s), p1);
    let mv2 = CheckersMove {
        path: vec![pos(2, 1), pos(3, 0)],
    };
    Checkers::apply_move(&mut s, p1, &mv2);
    assert_eq!(Checkers::current_player(&s), p0);
}

#[test]
fn checkers_bot_easy_returns_legal_move() {
    let s = new_game();
    let mv = bot_move(&s, Difficulty::Easy);
    assert!(Checkers::validate_move(&s, s.players[0], &mv).is_ok());
}

#[test]
fn checkers_bot_hard_returns_legal_move() {
    let s = new_game();
    let mv = bot_move(&s, Difficulty::Hard);
    assert!(Checkers::validate_move(&s, s.players[0], &mv).is_ok());
}

#[test]
fn bot_plays_full_game_without_panic() {
    let mut s = new_game();
    let mut plies = 0;
    while Checkers::is_terminal(&s).is_none() && plies < 500 {
        let side_player = s.players[s.current_turn];
        let mv = bot_move(&s, Difficulty::Easy);
        assert!(Checkers::validate_move(&s, side_player, &mv).is_ok());
        Checkers::apply_move(&mut s, side_player, &mv);
        plies += 1;
    }
}


#[test]
fn without_captures_validation_accepts_exactly_the_generated_steps() {
    let s = new_game();
    let mover = s.players[s.current_turn as usize];
    let generated = legal_moves(&s);
    assert!(!generated.is_empty());
    // Every one-square diagonal hop from every square: accepted exactly when generated.
    for r in 0..8u8 {
        for c in 0..8u8 {
            for (dr, dc) in [(-1i8, -1i8), (-1, 1), (1, -1), (1, 1)] {
                let (nr, nc) = (r as i8 + dr, c as i8 + dc);
                if !(0..8).contains(&nr) || !(0..8).contains(&nc) {
                    continue;
                }
                let mv = CheckersMove { path: vec![pos(r, c), pos(nr as u8, nc as u8)] };
                let accepted = Checkers::validate_move(&s, mover, &mv).is_ok();
                let listed = generated.iter().any(|m| m.path == mv.path);
                assert_eq!(accepted, listed, "{:?}", mv.path);
            }
        }
    }
}

#[test]
fn king_diamond_capture_shows_validation_and_generation_differ() {
    // A Black king on (6,5) can capture around a diamond of Red men and come
    // back to its first landing square (4,3). Generation keeps the king on its
    // earlier landing squares while it searches, so it stops one capture short;
    // validation sees that square empty and asks for the last capture.
    let mut s = empty_state();
    s.board[6][5] = Square::King(Side::Black);
    for (r, c) in [(5usize, 4usize), (3, 4), (1, 4), (1, 2), (3, 2)] {
        s.board[r][c] = Square::Man(Side::Red);
    }
    s.current_turn = 0;
    let mover = s.players[0];
    let short = vec![pos(6, 5), pos(4, 3), pos(2, 5), pos(0, 3), pos(2, 1)];
    let full = vec![pos(6, 5), pos(4, 3), pos(2, 5), pos(0, 3), pos(2, 1), pos(4, 3)];
    let generated = legal_moves(&s);
    assert!(generated.iter().any(|m| m.path == short));
    assert!(!generated.iter().any(|m| m.path == full));
    let err = Checkers::validate_move(&s, mover, &CheckersMove { path: short }).unwrap_err();
    assert_eq!(err, "must continue jumping");
    assert!(Checkers::validate_move(&s, mover, &CheckersMove { path: full }).is_ok());
}
