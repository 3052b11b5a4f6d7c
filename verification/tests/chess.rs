use game_center::chess::{
    bot_move, in_check, legal_moves, CastleRights, Chess, ChessMove, ChessState, Piece, PieceKind,
    Position, Side,
};
use game_center::types::{Difficulty, GameOutcome, GameSettings, PlayerId};

fn two_players() -> [PlayerId; 2] {
    [PlayerId::new(), PlayerId::new()]
}

fn new_game() -> ChessState {
    let players = two_players();
    Chess::initial_state(&players, &GameSettings::default())
}

fn empty_state() -> ChessState {
    let players = two_players();
    let mut s = Chess::initial_state(&players, &GameSettings::default());
    s.board = [[None; 8]; 8];
    s.castle_rights = CastleRights {
        white_kingside: false,
        white_queenside: false,
        black_kingside: false,
        black_queenside: false,
    };
    s
}

fn mv(fr: u8, fc: u8, tr: u8, tc: u8) -> ChessMove {
    ChessMove {
        from: Position::new(fr, fc),
        to: Position::new(tr, tc),
        promotion: None,
    }
}

fn mv_promo(fr: u8, fc: u8, tr: u8, tc: u8, promo: PieceKind) -> ChessMove {
    ChessMove {
        from: Position::new(fr, fc),
        to: Position::new(tr, tc),
        promotion: Some(promo),
    }
}

#[test]
fn initial_state_has_32_pieces() {
    let s = new_game();
    let count: usize = s.board.iter().flatten().filter(|sq| sq.is_some()).count();
    assert_eq!(count, 32);
}

#[test]
fn white_moves_first() {
    let s = new_game();
    assert_eq!(Chess::current_player(&s), s.players[0]);
}

#[test]
fn pawn_single_and_double_step() {
    let s = new_game();
    let p0 = s.players[0];
    // Single step: e2-e3 (row 1 col 4 → row 2 col 4)
    let single = mv(1, 4, 2, 4);
    assert!(Chess::validate_move(&s, p0, &single).is_ok(), "single step failed");
    // Double step: e2-e4
    let double = mv(1, 4, 3, 4);
    assert!(Chess::validate_move(&s, p0, &double).is_ok(), "double step failed");
}

#[test]
fn pawn_blocked_cannot_move() {
    let mut s = new_game();
    // Place a black pawn in front of white e-pawn
    s.board[2][4] = Some(Piece { kind: PieceKind::Pawn, side: Side::Black });
    let p0 = s.players[0];
    assert!(Chess::validate_move(&s, p0, &mv(1, 4, 2, 4)).is_err());
    assert!(Chess::validate_move(&s, p0, &mv(1, 4, 3, 4)).is_err());
}

#[test]
fn pawn_diagonal_capture() {
    let mut s = new_game();
    // Move white e-pawn to e4 (3,4), put black piece on d5 (4,3)
    s.board[3][4] = s.board[1][4].take();
    s.board[4][3] = Some(Piece { kind: PieceKind::Pawn, side: Side::Black });
    let p0 = s.players[0];
    // White captures diagonally: (3,4) → (4,3)
    assert!(Chess::validate_move(&s, p0, &mv(3, 4, 4, 3)).is_ok());
    // Cannot capture own piece
    s.board[4][5] = Some(Piece { kind: PieceKind::Pawn, side: Side::White });
    assert!(Chess::validate_move(&s, p0, &mv(3, 4, 4, 5)).is_err());
}

#[test]
fn knight_moves_from_corner() {
    let mut s = empty_state();
    s.board[0][0] = Some(Piece { kind: PieceKind::Knight, side: Side::White });
    s.board[0][4] = Some(Piece { kind: PieceKind::King, side: Side::White });
    s.board[7][4] = Some(Piece { kind: PieceKind::King, side: Side::Black });
    let p0 = s.players[0];
    // From a1 (0,0), knight can go to (1,2) or (2,1)
    assert!(Chess::validate_move(&s, p0, &mv(0, 0, 1, 2)).is_ok());
    assert!(Chess::validate_move(&s, p0, &mv(0, 0, 2, 1)).is_ok());
    // Cannot go to adjacent square
    assert!(Chess::validate_move(&s, p0, &mv(0, 0, 0, 1)).is_err());
}

#[test]
fn bishop_blocked_by_own_piece() {
    let s = new_game();
    let p0 = s.players[0];
    // White bishop at (0,2) is blocked by pawns at row 1
    assert!(Chess::validate_move(&s, p0, &mv(0, 2, 2, 4)).is_err());
}

#[test]
fn cannot_move_into_check() {
    let mut s = empty_state();
    // White king at e1 (0,4). Black queen at (1,3) attacks (0,3) and (0,4).
    s.board[0][4] = Some(Piece { kind: PieceKind::King, side: Side::White });
    s.board[7][4] = Some(Piece { kind: PieceKind::King, side: Side::Black });
    s.board[1][3] = Some(Piece { kind: PieceKind::Queen, side: Side::Black });
    let p0 = s.players[0];
    // King moving to (0,3) would step into black queen's attack
    assert!(Chess::validate_move(&s, p0, &mv(0, 4, 0, 3)).is_err());
}

#[test]
fn castling_kingside_white() {
    let mut s = new_game();
    // Clear squares between king and kingside rook
    s.board[0][5] = None;
    s.board[0][6] = None;
    let p0 = s.players[0];
    // King moves from (0,4) to (0,6) = kingside castle
    let castle = mv(0, 4, 0, 6);
    assert!(Chess::validate_move(&s, p0, &castle).is_ok(), "kingside castle should be legal");
    Chess::apply_move(&mut s, p0, &castle);
    assert_eq!(s.board[0][6], Some(Piece { kind: PieceKind::King, side: Side::White }));
    assert_eq!(s.board[0][5], Some(Piece { kind: PieceKind::Rook, side: Side::White }));
    assert!(s.board[0][7].is_none());
}

#[test]
fn castling_blocked_when_king_in_check() {
    let mut s = new_game();
    // Clear kingside knight/bishop and white's e-pawn so the black rook actually pins the king
    s.board[0][5] = None;
    s.board[0][6] = None;
    s.board[1][4] = None;
    // Put black rook on e-file attacking white king
    s.board[3][4] = Some(Piece { kind: PieceKind::Rook, side: Side::Black });
    let p0 = s.players[0];
    let castle = mv(0, 4, 0, 6);
    assert!(Chess::validate_move(&s, p0, &castle).is_err(), "cannot castle while in check");
}

#[test]
fn en_passant_capture() {
    let mut s = empty_state();
    // White pawn at (4,4), black pawn about to double-push from (6,3)
    s.board[4][4] = Some(Piece { kind: PieceKind::Pawn, side: Side::White });
    s.board[6][3] = Some(Piece { kind: PieceKind::Pawn, side: Side::Black });
    s.board[0][4] = Some(Piece { kind: PieceKind::King, side: Side::White });
    s.board[7][4] = Some(Piece { kind: PieceKind::King, side: Side::Black });
    s.current_turn = 1; // Black's turn

    let p1 = s.players[1];
    // Black double-pushes d7-d5 (row 6 → row 4)
    Chess::apply_move(&mut s, p1, &mv(6, 3, 4, 3));
    // En passant target should be (5,3)
    assert_eq!(s.en_passant_target, Some(Position::new(5, 3)));

    let p0 = s.players[0];
    // White captures en passant: (4,4) → (5,3)
    let ep_mv = mv(4, 4, 5, 3);
    assert!(Chess::validate_move(&s, p0, &ep_mv).is_ok());
    Chess::apply_move(&mut s, p0, &ep_mv);
    // White pawn on (5,3), black pawn at (4,3) removed
    assert_eq!(s.board[5][3], Some(Piece { kind: PieceKind::Pawn, side: Side::White }));
    assert!(s.board[4][3].is_none());
}

#[test]
fn pawn_promotion_to_queen() {
    let mut s = empty_state();
    s.board[6][0] = Some(Piece { kind: PieceKind::Pawn, side: Side::White });
    s.board[0][4] = Some(Piece { kind: PieceKind::King, side: Side::White });
    s.board[7][4] = Some(Piece { kind: PieceKind::King, side: Side::Black });
    let p0 = s.players[0];
    let promo = mv_promo(6, 0, 7, 0, PieceKind::Queen);
    assert!(Chess::validate_move(&s, p0, &promo).is_ok());
    Chess::apply_move(&mut s, p0, &promo);
    assert_eq!(s.board[7][0], Some(Piece { kind: PieceKind::Queen, side: Side::White }));
}

#[test]
fn fools_mate_is_checkmate() {
    // 1.f3 e5 2.g4 Qh4#
    let mut s = new_game();
    let [p0, p1] = [s.players[0], s.players[1]];

    // 1. f3 (white f-pawn: row1 col5 → row2 col5)
    Chess::apply_move(&mut s, p0, &mv(1, 5, 2, 5));
    // 1... e5 (black e-pawn: row6 col4 → row4 col4)
    Chess::apply_move(&mut s, p1, &mv(6, 4, 4, 4));
    // 2. g4 (white g-pawn: row1 col6 → row3 col6)
    Chess::apply_move(&mut s, p0, &mv(1, 6, 3, 6));
    // 2... Qh4# (black queen: row7 col3 → row3 col7 — h4 is row 3 since row 0 = rank 1)
    Chess::apply_move(&mut s, p1, &mv(7, 3, 3, 7));

    match Chess::is_terminal(&s) {
        Some(GameOutcome::Win(winner)) => assert_eq!(winner, p1, "black should win fool's mate"),
        other => panic!("expected checkmate (black wins), got {other:?}"),
    }
}

#[test]
fn stalemate_is_draw() {
    // White king on a1 (0,0), black king on c2 (1,2), black queen on b3 (2,1)
    // White's turn; white king has no legal moves but is not in check.
    let mut s = empty_state();
    s.board[0][0] = Some(Piece { kind: PieceKind::King, side: Side::White });
    s.board[1][2] = Some(Piece { kind: PieceKind::King, side: Side::Black });
    s.board[2][1] = Some(Piece { kind: PieceKind::Queen, side: Side::Black });
    s.current_turn = 0;

    assert!(!in_check(&s, Side::White), "white should not be in check in stalemate");
    let moves = legal_moves(&s);
    assert!(moves.is_empty(), "white should have no legal moves: {moves:?}");

    match Chess::is_terminal(&s) {
        Some(GameOutcome::Draw) => {}
        other => panic!("expected stalemate draw, got {other:?}"),
    }
}

#[test]
fn chess_bot_easy_returns_legal_move() {
    let s = new_game();
    let mv_opt = bot_move(&s, Difficulty::Easy);
    assert!(mv_opt.is_some());
    let bot_mv = mv_opt.unwrap();
    assert!(Chess::validate_move(&s, s.players[0], &bot_mv).is_ok());
}

#[test]
fn chess_bot_hard_returns_legal_move() {
    let s = new_game();
    let mv_opt = bot_move(&s, Difficulty::Hard);
    assert!(mv_opt.is_some());
    let bot_mv = mv_opt.unwrap();
    assert!(Chess::validate_move(&s, s.players[0], &bot_mv).is_ok());
}

#[test]
fn king_capture_is_never_legal() {
    // White rook on (0,0); black king sitting on (0,7) with no defender.
    // Even though the rook can pseudo-capture the king on the rank,
    // legal_moves and validate_move must reject it.
    let mut s = empty_state();
    s.board[0][0] = Some(Piece { kind: PieceKind::Rook, side: Side::White });
    s.board[0][4] = Some(Piece { kind: PieceKind::King, side: Side::White });
    s.board[0][7] = Some(Piece { kind: PieceKind::King, side: Side::Black });
    s.current_turn = 0;

    let p0 = s.players[0];
    let capture_king = mv(0, 0, 0, 7);
    assert!(
        Chess::validate_move(&s, p0, &capture_king).is_err(),
        "king-capture must be rejected by validate_move"
    );
    let legals = legal_moves(&s);
    assert!(
        !legals.iter().any(|m| m.to == Position::new(0, 7)),
        "legal_moves must never include a king capture"
    );
}

#[test]
fn fifty_move_rule_draw() {
    let mut s = new_game();
    s.halfmove_clock = 100;
    match Chess::is_terminal(&s) {
        Some(GameOutcome::Draw) => {}
        other => panic!("expected draw from 50-move rule, got {other:?}"),
    }
}


#[test]
fn chess_bot_hard_takes_a_hanging_queen() {
    let mut s = empty_state();
    s.board[0][0] = Some(Piece { kind: PieceKind::King, side: Side::White });
    s.board[7][7] = Some(Piece { kind: PieceKind::King, side: Side::Black });
    s.board[3][0] = Some(Piece { kind: PieceKind::Rook, side: Side::White });
    s.board[3][5] = Some(Piece { kind: PieceKind::Queen, side: Side::Black });
    s.board[6][1] = Some(Piece { kind: PieceKind::Pawn, side: Side::Black });
    assert_eq!(bot_move(&s, Difficulty::Hard), Some(mv(3, 0, 3, 5)));
}
