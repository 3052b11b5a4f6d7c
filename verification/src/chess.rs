use vstd::prelude::*;

use crate::random::choose_item;
use crate::types::{Difficulty, GameOutcome, GameSettings, PlayerId};

verus! {

// ---------------------------------------------------------------------------
// Data model
// ---------------------------------------------------------------------------

#[derive(Clone, Copy, Debug, PartialEq, Eq, Structural, Hash)]
pub enum Side {
    White,
    Black,
}

/// The other side.
pub open spec fn other_side(s: Side) -> Side {
    match s {
        Side::White => Side::Black,
        Side::Black => Side::White,
    }
}

impl Side {
    pub fn opponent(self) -> (r: Side)
        ensures
            r == other_side(self),
    {
        match self {
            Side::White => Side::Black,
            Side::Black => Side::White,
        }
    }
}

#[derive(Clone, Copy, Debug, PartialEq, Eq, Structural, Hash)]
pub enum PieceKind {
    Pawn,
    Knight,
    Bishop,
    Rook,
    Queen,
    King,
}

#[derive(Clone, Copy, Debug, PartialEq, Eq, Structural, Hash)]
pub struct Piece {
    pub kind: PieceKind,
    pub side: Side,
}

/// A square: row 0 = rank 1 (White's back rank), col 0 = a-file.
#[derive(Clone, Copy, Debug, PartialEq, Eq, Structural, Hash)]
pub struct Position {
    pub row: u8,
    pub col: u8,
}

impl Position {
    pub fn new(row: u8, col: u8) -> (r: Self)
        ensures
            r == (Position { row, col }),
    {
        Position { row, col }
    }
}

#[derive(Clone, Copy, Debug, PartialEq, Eq, Structural)]
pub struct ChessMove {
    pub from: Position,
    pub to: Position,
    pub promotion: Option<PieceKind>,
}

#[derive(Clone, Copy, Debug, PartialEq, Eq, Structural)]
pub struct CastleRights {
    pub white_kingside: bool,
    pub white_queenside: bool,
    pub black_kingside: bool,
    pub black_queenside: bool,
}

pub open spec fn rights_kingside(cr: CastleRights, side: Side) -> bool {
    match side {
        Side::White => cr.white_kingside,
        Side::Black => cr.black_kingside,
    }
}

pub open spec fn rights_queenside(cr: CastleRights, side: Side) -> bool {
    match side {
        Side::White => cr.white_queenside,
        Side::Black => cr.black_queenside,
    }
}

pub open spec fn rights_without_kingside(cr: CastleRights, side: Side) -> CastleRights {
    match side {
        Side::White => CastleRights { white_kingside: false, ..cr },
        Side::Black => CastleRights { black_kingside: false, ..cr },
    }
}

pub open spec fn rights_without_queenside(cr: CastleRights, side: Side) -> CastleRights {
    match side {
        Side::White => CastleRights { white_queenside: false, ..cr },
        Side::Black => CastleRights { black_queenside: false, ..cr },
    }
}

impl CastleRights {
    /// Every castling right available (the initial position).
    pub fn all() -> (r: Self)
        ensures
            r.white_kingside && r.white_queenside && r.black_kingside && r.black_queenside,
    {
        CastleRights {
            white_kingside: true,
            white_queenside: true,
            black_kingside: true,
            black_queenside: true,
        }
    }

    pub fn kingside_for(&self, side: Side) -> (r: bool)
        ensures
            r == rights_kingside(*self, side),
    {
        match side {
            Side::White => self.white_kingside,
            Side::Black => self.black_kingside,
        }
    }

    pub fn queenside_for(&self, side: Side) -> (r: bool)
        ensures
            r == rights_queenside(*self, side),
    {
        match side {
            Side::White => self.white_queenside,
            Side::Black => self.black_queenside,
        }
    }

    /// Drop both castling rights of `side`.
    pub fn clear_side(&mut self, side: Side)
        ensures
            *final(self) == rights_without_queenside(
                rights_without_kingside(*old(self), side),
                side,
            ),
    {
        match side {
            Side::White => {
                self.white_kingside = false;
                self.white_queenside = false;
            },
            Side::Black => {
                self.black_kingside = false;
                self.black_queenside = false;
            },
        }
    }

    pub fn clear_kingside(&mut self, side: Side)
        ensures
            *final(self) == rights_without_kingside(*old(self), side),
    {
        match side {
            Side::White => self.white_kingside = false,
            Side::Black => self.black_kingside = false,
        }
    }

    pub fn clear_queenside(&mut self, side: Side)
        ensures
            *final(self) == rights_without_queenside(*old(self), side),
    {
        match side {
            Side::White => self.white_queenside = false,
            Side::Black => self.black_queenside = false,
        }
    }
}

pub type Board = [[Option<Piece>; 8]; 8];

/// The board as a sequence of rows, each a sequence of squares.
pub type Grid = Seq<Seq<Option<Piece>>>;

pub open spec fn grid(b: Board) -> Grid {
    b@.map_values(|row: [Option<Piece>; 8]| row@)
}

#[derive(Debug)]
pub struct ChessState {
    pub board: Board,
    /// players[0] plays White, players[1] plays Black.
    pub players: [PlayerId; 2],
    /// 0 = White to move, 1 = Black to move.
    pub current_turn: usize,
    pub move_count: u32,
    pub halfmove_clock: u32,
    pub castle_rights: CastleRights,
    pub en_passant_target: Option<Position>,
    pub position_history: Vec<u64>,
}

impl ChessState {
    /// The turn index names one of the two players.
    pub open spec fn wf(&self) -> bool {
        self.current_turn < 2
    }

    /// An exact copy (the position history included).
    pub fn clone_state(&self) -> (r: Self)
        ensures
            r.board == self.board,
            r.players == self.players,
            r.current_turn == self.current_turn,
            r.move_count == self.move_count,
            r.halfmove_clock == self.halfmove_clock,
            r.castle_rights == self.castle_rights,
            r.en_passant_target == self.en_passant_target,
            r.position_history@ == self.position_history@,
    {
        let h = self.position_history.clone();
        assert(h@ =~= self.position_history@);
        ChessState {
            board: self.board,
            players: self.players,
            current_turn: self.current_turn,
            move_count: self.move_count,
            halfmove_clock: self.halfmove_clock,
            castle_rights: self.castle_rights,
            en_passant_target: self.en_passant_target,
            position_history: h,
        }
    }
}

// ---------------------------------------------------------------------------
// Board helpers
// ---------------------------------------------------------------------------

pub open spec fn turn_side(turn: int) -> Side {
    if turn == 0 {
        Side::White
    } else {
        Side::Black
    }
}

pub fn side_for_turn(turn: usize) -> (r: Side)
    ensures
        r == turn_side(turn as int),
{
    if turn == 0 {
        Side::White
    } else {
        Side::Black
    }
}

pub open spec fn on_board(r: int, c: int) -> bool {
    0 <= r < 8 && 0 <= c < 8
}

pub fn in_bounds(r: i32, c: i32) -> (b: bool)
    ensures
        b == on_board(r as int, c as int),
{
    0 <= r && r < 8 && 0 <= c && c < 8
}

/// The square (r, c), or `None` off the board.
pub open spec fn at(b: Grid, r: int, c: int) -> Option<Piece> {
    if on_board(r, c) {
        b[r][c]
    } else {
        None
    }
}

pub open spec fn holds(b: Grid, r: int, c: int, side: Side, kind: PieceKind) -> bool {
    on_board(r, c) && at(b, r, c) == Some(Piece { kind, side })
}

fn piece_at_is(b: &Board, r: i32, c: i32, side: Side, kind: PieceKind) -> (res: bool)
    ensures
        res == holds(grid(*b), r as int, c as int, side, kind),
{
    if in_bounds(r, c) {
        match b[r as usize][c as usize] {
            Some(p) => p.side == side && p.kind == kind,
            None => false,
        }
    } else {
        false
    }
}

/// The row delta in which pawns of `side` advance.
pub open spec fn pawn_dir(side: Side) -> int {
    match side {
        Side::White => 1,
        Side::Black => -1,
    }
}

pub open spec fn pawn_attacks(b: Grid, r: int, c: int, by: Side) -> bool {
    let pr = r - pawn_dir(by);
    holds(b, pr, c - 1, by, PieceKind::Pawn) || holds(b, pr, c + 1, by, PieceKind::Pawn)
}

pub open spec fn knight_attacks(b: Grid, r: int, c: int, by: Side) -> bool {
    let k = PieceKind::Knight;
    ||| holds(b, r - 2, c - 1, by, k)
    ||| holds(b, r - 2, c + 1, by, k)
    ||| holds(b, r - 1, c - 2, by, k)
    ||| holds(b, r - 1, c + 2, by, k)
    ||| holds(b, r + 1, c - 2, by, k)
    ||| holds(b, r + 1, c + 2, by, k)
    ||| holds(b, r + 2, c - 1, by, k)
    ||| holds(b, r + 2, c + 1, by, k)
}

pub open spec fn king_attacks(b: Grid, r: int, c: int, by: Side) -> bool {
    let k = PieceKind::King;
    ||| holds(b, r - 1, c - 1, by, k)
    ||| holds(b, r - 1, c, by, k)
    ||| holds(b, r - 1, c + 1, by, k)
    ||| holds(b, r, c - 1, by, k)
    ||| holds(b, r, c + 1, by, k)
    ||| holds(b, r + 1, c - 1, by, k)
    ||| holds(b, r + 1, c, by, k)
    ||| holds(b, r + 1, c + 1, by, k)
}

/// Does a piece of this kind attack along diagonals (`diag`) or along ranks and files?
pub open spec fn slides_along(kind: PieceKind, diag: bool) -> bool {
    if diag {
        kind == PieceKind::Bishop || kind == PieceKind::Queen
    } else {
        kind == PieceKind::Rook || kind == PieceKind::Queen
    }
}

/// Walking from (r, c) in steps of (dr, dc): is the first piece met a slider of
/// `by` that moves along this kind of line? (`fuel` bounds the walk.)
pub open spec fn ray_attack(
    b: Grid,
    r: int,
    c: int,
    dr: int,
    dc: int,
    by: Side,
    diag: bool,
    fuel: nat,
) -> bool
    decreases fuel,
{
    if fuel == 0 || !on_board(r, c) {
        false
    } else {
        match b[r][c] {
            Some(p) => p.side == by && slides_along(p.kind, diag),
            None => ray_attack(b, r + dr, c + dc, dr, dc, by, diag, (fuel - 1) as nat),
        }
    }
}

pub open spec fn slider_attacks(b: Grid, r: int, c: int, by: Side) -> bool {
    ||| ray_attack(b, r - 1, c - 1, -1, -1, by, true, 8)
    ||| ray_attack(b, r - 1, c + 1, -1, 1, by, true, 8)
    ||| ray_attack(b, r + 1, c - 1, 1, -1, by, true, 8)
    ||| ray_attack(b, r + 1, c + 1, 1, 1, by, true, 8)
    ||| ray_attack(b, r - 1, c, -1, 0, by, false, 8)
    ||| ray_attack(b, r + 1, c, 1, 0, by, false, 8)
    ||| ray_attack(b, r, c - 1, 0, -1, by, false, 8)
    ||| ray_attack(b, r, c + 1, 0, 1, by, false, 8)
}

/// Is the square (r, c) attacked by some piece of `by`?
pub open spec fn attacked(b: Grid, r: int, c: int, by: Side) -> bool {
    ||| pawn_attacks(b, r, c, by)
    ||| knight_attacks(b, r, c, by)
    ||| slider_attacks(b, r, c, by)
    ||| king_attacks(b, r, c, by)
}

/// Position of a step of (dr, dc) taken `k` times from `x`.
pub open spec fn stepped(x: int, d: int, k: int) -> int {
    if d == 1 {
        x + k
    } else if d == -1 {
        x - k
    } else {
        x
    }
}

fn ray_attacked(b: &Board, r: i32, c: i32, dr: i32, dc: i32, by: Side, diag: bool) -> (res: bool)
    requires
        0 <= r < 8,
        0 <= c < 8,
        -1 <= dr <= 1,
        -1 <= dc <= 1,
        dr != 0 || dc != 0,
    ensures
        res == ray_attack(grid(*b), r + dr, c + dc, dr as int, dc as int, by, diag, 8),
{
    let mut nr = r + dr;
    let mut nc = c + dc;
    let ghost mut fuel: nat = 8;
    let ghost mut k: int = 1;
    while in_bounds(nr, nc)
        invariant
            0 <= r < 8,
            0 <= c < 8,
            -1 <= dr <= 1,
            -1 <= dc <= 1,
            dr != 0 || dc != 0,
            1 <= k <= 8,
            fuel == 9 - k,
            nr == stepped(r as int, dr as int, k),
            nc == stepped(c as int, dc as int, k),
            ray_attack(grid(*b), r + dr, c + dc, dr as int, dc as int, by, diag, 8) == ray_attack(
                grid(*b),
                nr as int,
                nc as int,
                dr as int,
                dc as int,
                by,
                diag,
                fuel,
            ),
        decreases 9 - k,
    {
        assert(fuel > 0);
        match b[nr as usize][nc as usize] {
            Some(p) => {
                return p.side == by && (p.kind == PieceKind::Queen || (diag && p.kind
                    == PieceKind::Bishop) || (!diag && p.kind == PieceKind::Rook));
            },
            None => {},
        }
        nr = nr + dr;
        nc = nc + dc;
        proof {
            fuel = (fuel - 1) as nat;
            k = k + 1;
        }
        assert(k <= 8) by {
            if k > 8 {
                assert(!on_board(nr as int, nc as int));
            }
        }
    }
    false
}

/// Returns true if `pos` is attacked by any piece of `by_side`.
pub fn is_square_attacked(board: &Board, pos: Position, by_side: Side) -> (res: bool)
    requires
        pos.row < 8,
        pos.col < 8,
    ensures
        res == attacked(grid(*board), pos.row as int, pos.col as int, by_side),
{
    let r = pos.row as i32;
    let c = pos.col as i32;
    let pawn_step: i32 = match by_side {
        Side::White => 1,
        Side::Black => -1,
    };
    let pawn = PieceKind::Pawn;
    if piece_at_is(board, r - pawn_step, c - 1, by_side, pawn) || piece_at_is(
        board,
        r - pawn_step,
        c + 1,
        by_side,
        pawn,
    ) {
        return true;
    }
    let kn = PieceKind::Knight;
    if piece_at_is(board, r - 2, c - 1, by_side, kn) || piece_at_is(board, r - 2, c + 1, by_side, kn)
        || piece_at_is(board, r - 1, c - 2, by_side, kn) || piece_at_is(
        board,
        r - 1,
        c + 2,
        by_side,
        kn,
    ) || piece_at_is(board, r + 1, c - 2, by_side, kn) || piece_at_is(board, r + 1, c + 2, by_side, kn)
        || piece_at_is(board, r + 2, c - 1, by_side, kn) || piece_at_is(
        board,
        r + 2,
        c + 1,
        by_side,
        kn,
    ) {
        return true;
    }
    if ray_attacked(board, r, c, -1, -1, by_side, true) || ray_attacked(
        board,
        r,
        c,
        -1,
        1,
        by_side,
        true,
    ) || ray_attacked(board, r, c, 1, -1, by_side, true) || ray_attacked(
        board,
        r,
        c,
        1,
        1,
        by_side,
        true,
    ) {
        return true;
    }
    if ray_attacked(board, r, c, -1, 0, by_side, false) || ray_attacked(
        board,
        r,
        c,
        1,
        0,
        by_side,
        false,
    ) || ray_attacked(board, r, c, 0, -1, by_side, false) || ray_attacked(
        board,
        r,
        c,
        0,
        1,
        by_side,
        false,
    ) {
        return true;
    }
    let kg = PieceKind::King;
    if piece_at_is(board, r - 1, c - 1, by_side, kg) || piece_at_is(board, r - 1, c, by_side, kg)
        || piece_at_is(board, r - 1, c + 1, by_side, kg) || piece_at_is(
        board,
        r,
        c - 1,
        by_side,
        kg,
    ) || piece_at_is(board, r, c + 1, by_side, kg) || piece_at_is(board, r + 1, c - 1, by_side, kg)
        || piece_at_is(board, r + 1, c, by_side, kg) || piece_at_is(
        board,
        r + 1,
        c + 1,
        by_side,
        kg,
    ) {
        return true;
    }
    false
}


// ---------------------------------------------------------------------------
// Kings and check
// ---------------------------------------------------------------------------

/// Index (row * 8 + col) of the first king of `side` in row-major order at or after `i`.
pub open spec fn first_king_from(b: Grid, side: Side, i: int) -> Option<int>
    decreases 64 - i,
{
    if i < 0 || i >= 64 {
        None
    } else if holds(b, i / 8, i % 8, side, PieceKind::King) {
        Some(i)
    } else {
        first_king_from(b, side, i + 1)
    }
}

proof fn lemma_first_king_range(b: Grid, side: Side, i: int)
    ensures
        first_king_from(b, side, i) matches Some(j) ==> i <= j < 64 && 0 <= j && holds(
            b,
            j / 8,
            j % 8,
            side,
            PieceKind::King,
        ),
    decreases 64 - i,
{
    if i >= 0 && i < 64 && !holds(b, i / 8, i % 8, side, PieceKind::King) {
        lemma_first_king_range(b, side, i + 1);
    }
}

/// Is `side`'s king (the first one in row-major order) attacked? False without a king.
pub open spec fn king_in_check(b: Grid, side: Side) -> bool {
    match first_king_from(b, side, 0) {
        Some(i) => attacked(b, i / 8, i % 8, other_side(side)),
        None => false,
    }
}

fn first_king(board: &Board, side: Side) -> (res: Option<Position>)
    ensures
        match first_king_from(grid(*board), side, 0) {
            Some(i) => res == Some(Position { row: (i / 8) as u8, col: (i % 8) as u8 }),
            None => res.is_none(),
        },
        res matches Some(p) ==> p.row < 8 && p.col < 8,
{
    let mut r: usize = 0;
    while r < 8
        invariant
            r <= 8,
            first_king_from(grid(*board), side, 0) == first_king_from(grid(*board), side, (r * 8) as int),
        decreases 8 - r,
    {
        let mut c: usize = 0;
        while c < 8
            invariant
                r < 8,
                c <= 8,
                first_king_from(grid(*board), side, 0) == first_king_from(
                    grid(*board),
                    side,
                    (r * 8 + c) as int,
                ),
            decreases 8 - c,
        {
            let i: Ghost<int> = Ghost((r * 8 + c) as int);
            assert(i@ / 8 == r && i@ % 8 == c);
            match board[r][c] {
                Some(p) => {
                    if p.kind == PieceKind::King && p.side == side {
                        return Some(Position { row: r as u8, col: c as u8 });
                    }
                },
                None => {},
            }
            c += 1;
        }
        r += 1;
    }
    None
}

/// Find the king position for the given side (the first one in row-major order).
pub fn king_position(state: &ChessState, side: Side) -> (res: Option<Position>)
    ensures
        match first_king_from(grid(state.board), side, 0) {
            Some(i) => res == Some(Position { row: (i / 8) as u8, col: (i % 8) as u8 }),
            None => res.is_none(),
        },
{
    first_king(&state.board, side)
}

/// Returns true if `side` is currently in check.
pub fn in_check(state: &ChessState, side: Side) -> (res: bool)
    ensures
        res == king_in_check(grid(state.board), side),
{
    in_check_of(&state.board, side)
}

fn in_check_of(board: &Board, side: Side) -> (res: bool)
    ensures
        res == king_in_check(grid(*board), side),
{
    proof {
        lemma_first_king_range(grid(*board), side, 0);
    }
    match first_king(board, side) {
        Some(kpos) => is_square_attacked(board, kpos, side.opponent()),
        None => false,
    }
}

/// Is the side whose turn it is (by turn index) in check?
pub fn in_check_board(board: &Board, current_turn: usize) -> (res: bool)
    ensures
        res == king_in_check(grid(*board), turn_side(current_turn as int)),
{
    in_check_of(board, side_for_turn(current_turn))
}


// ---------------------------------------------------------------------------
// Pseudo-legal move generation
// ---------------------------------------------------------------------------

pub open spec fn pos_of(r: int, c: int) -> Position {
    Position { row: r as u8, col: c as u8 }
}

/// A plain (non-promoting) move from `from` to (r, c).
pub open spec fn plain(from: Position, r: int, c: int) -> ChessMove {
    ChessMove { from, to: pos_of(r, c), promotion: None }
}

pub open spec fn promo(from: Position, to: Position, k: PieceKind) -> ChessMove {
    ChessMove { from, to, promotion: Some(k) }
}

/// The four promotion choices, queen first.
pub open spec fn promotions(from: Position, to: Position) -> Seq<ChessMove> {
    seq![
        promo(from, to, PieceKind::Queen),
        promo(from, to, PieceKind::Rook),
        promo(from, to, PieceKind::Bishop),
        promo(from, to, PieceKind::Knight),
    ]
}

/// (r, c) is on the board and empty or held by the other side.
pub open spec fn free_or_enemy(b: Grid, r: int, c: int, side: Side) -> bool {
    on_board(r, c) && match b[r][c] {
        None => true,
        Some(p) => p.side != side,
    }
}

pub open spec fn pawn_start_row(side: Side) -> int {
    match side {
        Side::White => 1,
        Side::Black => 6,
    }
}

pub open spec fn last_row(side: Side) -> int {
    match side {
        Side::White => 7,
        Side::Black => 0,
    }
}

pub open spec fn back_row(side: Side) -> int {
    match side {
        Side::White => 0,
        Side::Black => 7,
    }
}

/// Pawn pushes: one square forward onto an empty square (four promotions on the
/// last row), and two squares from the starting row when both are empty.
pub open spec fn pawn_pushes(b: Grid, from: Position, side: Side) -> Seq<ChessMove> {
    let r = from.row as int;
    let c = from.col as int;
    let nr = r + pawn_dir(side);
    if on_board(nr, c) && b[nr][c].is_none() {
        if nr == last_row(side) {
            promotions(from, pos_of(nr, c))
        } else {
            seq![plain(from, nr, c)] + if r == pawn_start_row(side) && b[r + 2 * pawn_dir(
                side,
            )][c].is_none() {
                seq![plain(from, r + 2 * pawn_dir(side), c)]
            } else {
                Seq::empty()
            }
        }
    } else {
        Seq::empty()
    }
}

/// Diagonal pawn move towards column offset `dc`: a capture of an enemy piece or
/// onto the en-passant target.
pub open spec fn pawn_capture(
    b: Grid,
    ep: Option<Position>,
    from: Position,
    side: Side,
    dc: int,
) -> Seq<ChessMove> {
    let tr = from.row as int + pawn_dir(side);
    let tc = from.col as int + dc;
    if !on_board(tr, tc) {
        Seq::empty()
    } else {
        let is_ep = ep == Some(pos_of(tr, tc));
        let is_capture = b[tr][tc] matches Some(p) && p.side != side;
        if is_capture || is_ep {
            if tr == last_row(side) {
                promotions(from, pos_of(tr, tc))
            } else {
                seq![plain(from, tr, tc)]
            }
        } else {
            Seq::empty()
        }
    }
}

pub open spec fn pawn_moves(b: Grid, ep: Option<Position>, from: Position, side: Side) -> Seq<
    ChessMove,
> {
    pawn_pushes(b, from, side) + pawn_capture(b, ep, from, side, -1) + pawn_capture(
        b,
        ep,
        from,
        side,
        1,
    )
}

/// A single step by (dr, dc) onto an empty or enemy square.
#[verifier::opaque]
pub open spec fn leap(b: Grid, from: Position, side: Side, dr: int, dc: int) -> Seq<ChessMove> {
    let nr = from.row as int + dr;
    let nc = from.col as int + dc;
    if free_or_enemy(b, nr, nc, side) {
        seq![plain(from, nr, nc)]
    } else {
        Seq::empty()
    }
}

pub open spec fn knight_moves(b: Grid, from: Position, side: Side) -> Seq<ChessMove> {
    leap(b, from, side, -2, -1) + leap(b, from, side, -2, 1) + leap(b, from, side, -1, -2) + leap(
        b,
        from,
        side,
        -1,
        2,
    ) + leap(b, from, side, 1, -2) + leap(b, from, side, 1, 2) + leap(b, from, side, 2, -1) + leap(
        b,
        from,
        side,
        2,
        1,
    )
}

/// Sliding from (r, c) in steps of (dr, dc): every empty square, then the first
/// occupied one if it holds an enemy piece.
pub open spec fn slide(
    b: Grid,
    from: Position,
    side: Side,
    r: int,
    c: int,
    dr: int,
    dc: int,
    fuel: nat,
) -> Seq<ChessMove>
    decreases fuel,
{
    if fuel == 0 || !on_board(r, c) {
        Seq::empty()
    } else {
        match b[r][c] {
            None => seq![plain(from, r, c)] + slide(
                b,
                from,
                side,
                r + dr,
                c + dc,
                dr,
                dc,
                (fuel - 1) as nat,
            ),
            Some(p) => if p.side != side {
                seq![plain(from, r, c)]
            } else {
                Seq::empty()
            },
        }
    }
}

pub open spec fn ray(b: Grid, from: Position, side: Side, dr: int, dc: int) -> Seq<ChessMove> {
    slide(b, from, side, from.row as int + dr, from.col as int + dc, dr, dc, 8)
}

pub open spec fn diagonal_moves(b: Grid, from: Position, side: Side) -> Seq<ChessMove> {
    ray(b, from, side, -1, -1) + ray(b, from, side, -1, 1) + ray(b, from, side, 1, -1) + ray(
        b,
        from,
        side,
        1,
        1,
    )
}

pub open spec fn straight_moves(b: Grid, from: Position, side: Side) -> Seq<ChessMove> {
    ray(b, from, side, -1, 0) + ray(b, from, side, 1, 0) + ray(b, from, side, 0, -1) + ray(
        b,
        from,
        side,
        0,
        1,
    )
}

pub open spec fn king_steps(b: Grid, from: Position, side: Side) -> Seq<ChessMove> {
    leap(b, from, side, -1, -1) + leap(b, from, side, -1, 0) + leap(b, from, side, -1, 1) + leap(
        b,
        from,
        side,
        0,
        -1,
    ) + leap(b, from, side, 0, 1) + leap(b, from, side, 1, -1) + leap(b, from, side, 1, 0) + leap(
        b,
        from,
        side,
        1,
        1,
    )
}

/// Castling, generated for a king standing on its home square while the side to
/// move is not in check: king-side needs the right, the rook on h, f and g empty
/// and unattacked; queen-side needs the right, the rook on a, b, c, d empty and
/// c, d unattacked.
pub open spec fn castles(b: Grid, cr: CastleRights, turn: int, from: Position, side: Side) -> Seq<
    ChessMove,
> {
    let br = back_row(side);
    let opp = other_side(side);
    if from.row as int == br && from.col == 4 && !king_in_check(b, turn_side(turn)) {
        (if rights_kingside(cr, side) && holds(b, br, 7, side, PieceKind::Rook) && b[br][5].is_none()
            && b[br][6].is_none() && !attacked(b, br, 5, opp) && !attacked(b, br, 6, opp) {
            seq![plain(from, br, 6)]
        } else {
            Seq::empty()
        }) + (if rights_queenside(cr, side) && holds(b, br, 0, side, PieceKind::Rook)
            && b[br][3].is_none() && b[br][2].is_none() && b[br][1].is_none() && !attacked(
            b,
            br,
            3,
            opp,
        ) && !attacked(b, br, 2, opp) {
            seq![plain(from, br, 2)]
        } else {
            Seq::empty()
        })
    } else {
        Seq::empty()
    }
}

/// Every pseudo-legal move (own king safety not considered) of `piece` standing on
/// `from`, in generation order.
pub open spec fn pseudo_moves(
    b: Grid,
    cr: CastleRights,
    ep: Option<Position>,
    turn: int,
    from: Position,
    piece: Piece,
) -> Seq<ChessMove> {
    let side = piece.side;
    match piece.kind {
        PieceKind::Pawn => pawn_moves(b, ep, from, side),
        PieceKind::Knight => knight_moves(b, from, side),
        PieceKind::Bishop => diagonal_moves(b, from, side),
        PieceKind::Rook => straight_moves(b, from, side),
        PieceKind::Queen => diagonal_moves(b, from, side) + straight_moves(b, from, side),
        PieceKind::King => king_steps(b, from, side) + castles(b, cr, turn, from, side),
    }
}

fn push_promotions(from: Position, to: Position, out: &mut Vec<ChessMove>)
    ensures
        final(out)@ == old(out)@ + promotions(from, to),
{
    out.push(ChessMove { from, to, promotion: Some(PieceKind::Queen) });
    out.push(ChessMove { from, to, promotion: Some(PieceKind::Rook) });
    out.push(ChessMove { from, to, promotion: Some(PieceKind::Bishop) });
    out.push(ChessMove { from, to, promotion: Some(PieceKind::Knight) });
    assert(out@ =~= old(out)@ + promotions(from, to));
}

fn push_leap(b: &Board, from: Position, side: Side, dr: i32, dc: i32, out: &mut Vec<ChessMove>)
    requires
        from.row < 8,
        from.col < 8,
        -2 <= dr <= 2,
        -2 <= dc <= 2,
    ensures
        final(out)@ == old(out)@ + leap(grid(*b), from, side, dr as int, dc as int),
{
    reveal(leap);
    let nr = from.row as i32 + dr;
    let nc = from.col as i32 + dc;
    if in_bounds(nr, nc) {
        let free = match b[nr as usize][nc as usize] {
            None => true,
            Some(p) => p.side != side,
        };
        if free {
            out.push(ChessMove { from, to: Position::new(nr as u8, nc as u8), promotion: None });
            assert(out@ =~= old(out)@ + leap(grid(*b), from, side, dr as int, dc as int));
            return ;
        }
    }
    assert(out@ =~= old(out)@ + leap(grid(*b), from, side, dr as int, dc as int));
}

fn slide_moves_dir(
    b: &Board,
    from: Position,
    side: Side,
    dr: i32,
    dc: i32,
    out: &mut Vec<ChessMove>,
)
    requires
        from.row < 8,
        from.col < 8,
        -1 <= dr <= 1,
        -1 <= dc <= 1,
        dr != 0 || dc != 0,
    ensures
        final(out)@ == old(out)@ + ray(grid(*b), from, side, dr as int, dc as int),
{
    let r = from.row as i32;
    let c = from.col as i32;
    let mut nr = r + dr;
    let mut nc = c + dc;
    let ghost mut fuel: nat = 8;
    let ghost mut k: int = 1;
    while in_bounds(nr, nc)
        invariant
            0 <= r < 8,
            0 <= c < 8,
            r == from.row,
            c == from.col,
            -1 <= dr <= 1,
            -1 <= dc <= 1,
            dr != 0 || dc != 0,
            1 <= k <= 8,
            fuel == 9 - k,
            nr == stepped(r as int, dr as int, k),
            nc == stepped(c as int, dc as int, k),
            old(out)@ + ray(grid(*b), from, side, dr as int, dc as int) == out@ + slide(
                grid(*b),
                from,
                side,
                nr as int,
                nc as int,
                dr as int,
                dc as int,
                fuel,
            ),
        decreases 9 - k,
    {
        let ghost before = out@;
        match b[nr as usize][nc as usize] {
            None => {
                out.push(ChessMove { from, to: Position::new(nr as u8, nc as u8), promotion: None });
            },
            Some(p) => {
                if p.side != side {
                    out.push(
                        ChessMove { from, to: Position::new(nr as u8, nc as u8), promotion: None },
                    );
                }
                assert(out@ =~= old(out)@ + ray(grid(*b), from, side, dr as int, dc as int));
                return ;
            },
        }
        let ghost tail = slide(
            grid(*b),
            from,
            side,
            nr + dr,
            nc + dc,
            dr as int,
            dc as int,
            (fuel - 1) as nat,
        );
        assert(before + slide(grid(*b), from, side, nr as int, nc as int, dr as int, dc as int, fuel)
            =~= out@ + tail);
        nr = nr + dr;
        nc = nc + dc;
        proof {
            fuel = (fuel - 1) as nat;
            k = k + 1;
        }
        assert(k <= 8) by {
            if k > 8 {
                assert(!on_board(nr as int, nc as int));
            }
        }
    }
    assert(out@ =~= old(out)@ + ray(grid(*b), from, side, dr as int, dc as int));
}


fn push_pawn_capture(
    b: &Board,
    ep: Option<Position>,
    from: Position,
    side: Side,
    dc: i32,
    out: &mut Vec<ChessMove>,
)
    requires
        from.row < 8,
        from.col < 8,
        dc == -1 || dc == 1,
    ensures
        final(out)@ == old(out)@ + pawn_capture(grid(*b), ep, from, side, dc as int),
{
    let dir: i32 = match side {
        Side::White => 1,
        Side::Black => -1,
    };
    let promo_row: i32 = match side {
        Side::White => 7,
        Side::Black => 0,
    };
    let tr = from.row as i32 + dir;
    let tc = from.col as i32 + dc;
    if !in_bounds(tr, tc) {
        assert(out@ =~= old(out)@ + pawn_capture(grid(*b), ep, from, side, dc as int));
        return ;
    }
    let target = Position::new(tr as u8, tc as u8);
    let is_ep = match ep {
        Some(e) => e == target,
        None => false,
    };
    let is_capture = match b[tr as usize][tc as usize] {
        Some(p) => p.side != side,
        None => false,
    };
    if is_capture || is_ep {
        if tr == promo_row {
            push_promotions(from, target, out);
        } else {
            out.push(ChessMove { from, to: target, promotion: None });
        }
    }
    assert(out@ =~= old(out)@ + pawn_capture(grid(*b), ep, from, side, dc as int));
}

fn push_pawn_pushes(b: &Board, from: Position, side: Side, out: &mut Vec<ChessMove>)
    requires
        from.row < 8,
        from.col < 8,
    ensures
        final(out)@ == old(out)@ + pawn_pushes(grid(*b), from, side),
{
    let r = from.row as i32;
    let c = from.col as i32;
    let dir: i32 = match side {
        Side::White => 1,
        Side::Black => -1,
    };
    let start_row: i32 = match side {
        Side::White => 1,
        Side::Black => 6,
    };
    let promo_row: i32 = match side {
        Side::White => 7,
        Side::Black => 0,
    };
    let nr = r + dir;
    if in_bounds(nr, c) && b[nr as usize][c as usize].is_none() {
        if nr == promo_row {
            push_promotions(from, Position::new(nr as u8, c as u8), out);
        } else {
            out.push(ChessMove { from, to: Position::new(nr as u8, c as u8), promotion: None });
            if r == start_row {
                let nr2 = r + 2 * dir;
                if b[nr2 as usize][c as usize].is_none() {
                    out.push(
                        ChessMove { from, to: Position::new(nr2 as u8, c as u8), promotion: None },
                    );
                }
            }
        }
    }
    assert(out@ =~= old(out)@ + pawn_pushes(grid(*b), from, side));
}

fn push_pawn_moves(
    b: &Board,
    ep: Option<Position>,
    from: Position,
    side: Side,
    out: &mut Vec<ChessMove>,
)
    requires
        from.row < 8,
        from.col < 8,
    ensures
        final(out)@ == old(out)@ + pawn_moves(grid(*b), ep, from, side),
{
    push_pawn_pushes(b, from, side, out);
    push_pawn_capture(b, ep, from, side, -1, out);
    push_pawn_capture(b, ep, from, side, 1, out);
    assert(out@ =~= old(out)@ + pawn_moves(grid(*b), ep, from, side));
}

fn push_knight_moves(b: &Board, from: Position, side: Side, out: &mut Vec<ChessMove>)
    requires
        from.row < 8,
        from.col < 8,
    ensures
        final(out)@ == old(out)@ + knight_moves(grid(*b), from, side),
{
    push_leap(b, from, side, -2, -1, out);
    push_leap(b, from, side, -2, 1, out);
    push_leap(b, from, side, -1, -2, out);
    push_leap(b, from, side, -1, 2, out);
    push_leap(b, from, side, 1, -2, out);
    push_leap(b, from, side, 1, 2, out);
    push_leap(b, from, side, 2, -1, out);
    push_leap(b, from, side, 2, 1, out);
    assert(out@ =~= old(out)@ + knight_moves(grid(*b), from, side));
}

fn push_diagonal_moves(b: &Board, from: Position, side: Side, out: &mut Vec<ChessMove>)
    requires
        from.row < 8,
        from.col < 8,
    ensures
        final(out)@ == old(out)@ + diagonal_moves(grid(*b), from, side),
{
    slide_moves_dir(b, from, side, -1, -1, out);
    slide_moves_dir(b, from, side, -1, 1, out);
    slide_moves_dir(b, from, side, 1, -1, out);
    slide_moves_dir(b, from, side, 1, 1, out);
    assert(out@ =~= old(out)@ + diagonal_moves(grid(*b), from, side));
}

fn push_straight_moves(b: &Board, from: Position, side: Side, out: &mut Vec<ChessMove>)
    requires
        from.row < 8,
        from.col < 8,
    ensures
        final(out)@ == old(out)@ + straight_moves(grid(*b), from, side),
{
    slide_moves_dir(b, from, side, -1, 0, out);
    slide_moves_dir(b, from, side, 1, 0, out);
    slide_moves_dir(b, from, side, 0, -1, out);
    slide_moves_dir(b, from, side, 0, 1, out);
    assert(out@ =~= old(out)@ + straight_moves(grid(*b), from, side));
}

fn push_king_moves(
    b: &Board,
    cr: &CastleRights,
    turn: usize,
    from: Position,
    side: Side,
    out: &mut Vec<ChessMove>,
)
    requires
        from.row < 8,
        from.col < 8,
    ensures
        final(out)@ == old(out)@ + king_steps(grid(*b), from, side) + castles(
            grid(*b),
            *cr,
            turn as int,
            from,
            side,
        ),
{
    push_leap(b, from, side, -1, -1, out);
    push_leap(b, from, side, -1, 0, out);
    push_leap(b, from, side, -1, 1, out);
    push_leap(b, from, side, 0, -1, out);
    push_leap(b, from, side, 0, 1, out);
    push_leap(b, from, side, 1, -1, out);
    push_leap(b, from, side, 1, 0, out);
    push_leap(b, from, side, 1, 1, out);
    assert(out@ =~= old(out)@ + king_steps(grid(*b), from, side));
    let ghost mid = out@;
    let br: u8 = match side {
        Side::White => 0,
        Side::Black => 7,
    };
    let bru = br as usize;
    if from.row == br && from.col == 4 && !in_check_board(b, turn) {
        let opp = side.opponent();
        if cr.kingside_for(side) && piece_at_is(b, br as i32, 7, side, PieceKind::Rook)
            && b[bru][5].is_none() && b[bru][6].is_none() && !is_square_attacked(
            b,
            Position::new(br, 5),
            opp,
        ) && !is_square_attacked(b, Position::new(br, 6), opp) {
            out.push(ChessMove { from, to: Position::new(br, 6), promotion: None });
        }
        let ghost mid2 = out@;
        if cr.queenside_for(side) && piece_at_is(b, br as i32, 0, side, PieceKind::Rook)
            && b[bru][3].is_none() && b[bru][2].is_none() && b[bru][1].is_none()
            && !is_square_attacked(b, Position::new(br, 3), opp) && !is_square_attacked(
            b,
            Position::new(br, 2),
            opp,
        ) {
            out.push(ChessMove { from, to: Position::new(br, 2), promotion: None });
        }
    }
    assert(out@ =~= mid + castles(grid(*b), *cr, turn as int, from, side));
}

/// Append every pseudo-legal move of `piece` standing on `from` to `out`.
pub fn pseudo_moves_for_piece(
    state: &ChessState,
    from: Position,
    piece: Piece,
    out: &mut Vec<ChessMove>,
)
    requires
        from.row < 8,
        from.col < 8,
    ensures
        final(out)@ == old(out)@ + pseudo_moves(
            grid(state.board),
            state.castle_rights,
            state.en_passant_target,
            state.current_turn as int,
            from,
            piece,
        ),
{
    let side = piece.side;
    match piece.kind {
        PieceKind::Pawn => push_pawn_moves(&state.board, state.en_passant_target, from, side, out),
        PieceKind::Knight => push_knight_moves(&state.board, from, side, out),
        PieceKind::Bishop => push_diagonal_moves(&state.board, from, side, out),
        PieceKind::Rook => push_straight_moves(&state.board, from, side, out),
        PieceKind::Queen => {
            push_diagonal_moves(&state.board, from, side, out);
            push_straight_moves(&state.board, from, side, out);
            assert(out@ =~= old(out)@ + (diagonal_moves(grid(state.board), from, side) + straight_moves(
                grid(state.board),
                from,
                side,
            )));
        },
        PieceKind::King => {
            push_king_moves(
                &state.board,
                &state.castle_rights,
                state.current_turn,
                from,
                side,
                out,
            );
            assert(out@ =~= old(out)@ + (king_steps(grid(state.board), from, side) + castles(
                grid(state.board),
                state.castle_rights,
                state.current_turn as int,
                from,
                side,
            )));
        },
    }
}


// ---------------------------------------------------------------------------
// Making a move
// ---------------------------------------------------------------------------

pub open spec fn set_sq(g: Grid, r: int, c: int, v: Option<Piece>) -> Grid {
    g.update(r, g[r].update(c, v))
}

pub open spec fn abs_diff(a: int, b: int) -> int {
    if a >= b {
        a - b
    } else {
        b - a
    }
}

/// A pawn moving onto the en-passant target captures en passant.
pub open spec fn is_ep_capture(g: Grid, ep: Option<Position>, mv: ChessMove) -> bool {
    g[mv.from.row as int][mv.from.col as int] matches Some(p) && p.kind == PieceKind::Pawn && ep
        == Some(mv.to)
}

/// A king moving two columns castles.
pub open spec fn is_castling(g: Grid, mv: ChessMove) -> bool {
    g[mv.from.row as int][mv.from.col as int] matches Some(p) && p.kind == PieceKind::King
        && abs_diff(mv.to.col as int, mv.from.col as int) == 2
}

/// The board after `side` plays `mv`: the mover leaves its square; an en-passant
/// capture removes the pawn beside it; castling brings the rook over the king
/// (to f from h when the king lands on g, to d from a otherwise); the mover, or the
/// promotion piece, lands on the target.
pub open spec fn board_after(g: Grid, ep: Option<Position>, side: Side, mv: ChessMove) -> Grid {
    let fr = mv.from.row as int;
    let fc = mv.from.col as int;
    let tr = mv.to.row as int;
    let tc = mv.to.col as int;
    let piece = g[fr][fc]->Some_0;
    let g1 = set_sq(g, fr, fc, None);
    let g2 = if is_ep_capture(g, ep, mv) {
        set_sq(g1, fr, tc, None)
    } else {
        g1
    };
    let g3 = if is_castling(g, mv) {
        if tc == 6 {
            set_sq(set_sq(g2, fr, 7, None), fr, 5, g2[fr][7])
        } else {
            set_sq(set_sq(g2, fr, 0, None), fr, 3, g2[fr][0])
        }
    } else {
        g2
    };
    let placed = match mv.promotion {
        Some(k) => Piece { kind: k, side },
        None => piece,
    };
    set_sq(g3, tr, tc, Some(placed))
}

pub open spec fn move_in_bounds(mv: ChessMove) -> bool {
    mv.from.row < 8 && mv.from.col < 8 && mv.to.row < 8 && mv.to.col < 8
}

/// Compute the board after `side` plays `mv` (see `board_after`).
pub fn board_after_move(board: &Board, ep: Option<Position>, side: Side, mv: &ChessMove) -> (res:
    Board)
    requires
        move_in_bounds(*mv),
        board[mv.from.row as int][mv.from.col as int].is_some(),
    ensures
        grid(res) == board_after(grid(*board), ep, side, *mv),
{
    let fr = mv.from.row as usize;
    let fc = mv.from.col as usize;
    let tr = mv.to.row as usize;
    let tc = mv.to.col as usize;
    let piece = match board[fr][fc] {
        Some(p) => p,
        None => {
            return *board;
        },
    };
    let mut b = *board;
    let is_pawn = piece.kind == PieceKind::Pawn;
    let ep_capture = is_pawn && match ep {
        Some(e) => mv.to == e,
        None => false,
    };
    let castling = piece.kind == PieceKind::King && (if mv.to.col >= mv.from.col {
        mv.to.col - mv.from.col == 2
    } else {
        mv.from.col - mv.to.col == 2
    });
    b[fr][fc] = None;
    if ep_capture {
        b[fr][tc] = None;
    }
    if castling {
        if mv.to.col == 6 {
            let rook = b[fr][7];
            b[fr][7] = None;
            b[fr][5] = rook;
        } else {
            let rook = b[fr][0];
            b[fr][0] = None;
            b[fr][3] = rook;
        }
    }
    let placed = match mv.promotion {
        Some(k) => Piece { kind: k, side },
        None => piece,
    };
    b[tr][tc] = Some(placed);
    assert(grid(b) =~~= board_after(grid(*board), ep, side, *mv));
    b
}


/// Castling rights after `side` moves `mover` by `mv`: a king move drops both of its
/// side's rights, a rook leaving its corner drops that side's right, and a move onto
/// an opponent corner drops the opponent's right there.
pub open spec fn rights_after(cr: CastleRights, side: Side, mover: Piece, mv: ChessMove) -> CastleRights {
    let cr1 = if mover.kind == PieceKind::King {
        rights_without_queenside(rights_without_kingside(cr, side), side)
    } else {
        cr
    };
    let cr2 = if mover.kind == PieceKind::Rook && mv.from.row as int == back_row(side) {
        if mv.from.col == 0 {
            rights_without_queenside(cr1, side)
        } else if mv.from.col == 7 {
            rights_without_kingside(cr1, side)
        } else {
            cr1
        }
    } else {
        cr1
    };
    let opp = other_side(side);
    let cr3 = if mv.to.row as int == back_row(opp) && mv.to.col == 0 {
        rights_without_queenside(cr2, opp)
    } else {
        cr2
    };
    if mv.to.row as int == back_row(opp) && mv.to.col == 7 {
        rights_without_kingside(cr3, opp)
    } else {
        cr3
    }
}

/// En-passant target after a move: only after a pawn's double step, and only when an
/// enemy pawn stands beside the landing square (on the new board `g`).
pub open spec fn ep_after(g: Grid, side: Side, mover: Piece, mv: ChessMove) -> Option<Position> {
    let fr = mv.from.row as int;
    let tr = mv.to.row as int;
    let tc = mv.to.col as int;
    if mover.kind == PieceKind::Pawn && abs_diff(tr, fr) == 2 {
        let ep_row = if tr > fr {
            fr + 1
        } else {
            fr - 1
        };
        let enemy = other_side(side);
        if holds(g, tr, tc - 1, enemy, PieceKind::Pawn) || holds(g, tr, tc + 1, enemy, PieceKind::Pawn) {
            Some(pos_of(ep_row, mv.from.col as int))
        } else {
            None
        }
    } else {
        None
    }
}

// ---------------------------------------------------------------------------
// Position hashing
// ---------------------------------------------------------------------------

pub open spec fn mix64(x: u64) -> u64 {
    let a = x.wrapping_add(0x9e37_79b9_7f4a_7c15);
    let b = (a ^ (a >> 30u64)).wrapping_mul(0xbf58_476d_1ce4_e5b9);
    let c = (b ^ (b >> 27u64)).wrapping_mul(0x94d0_49bb_1331_11eb);
    c ^ (c >> 31u64)
}

/// The SplitMix64 finaliser.
pub fn splitmix64(x: u64) -> (r: u64)
    ensures
        r == mix64(x),
{
    let mut x = x;
    x = x.wrapping_add(0x9e37_79b9_7f4a_7c15);
    x = (x ^ (x >> 30)).wrapping_mul(0xbf58_476d_1ce4_e5b9);
    x = (x ^ (x >> 27)).wrapping_mul(0x94d0_49bb_1331_11eb);
    x ^ (x >> 31)
}

pub open spec fn piece_code(p: Piece) -> int {
    let side_offset: int = match p.side {
        Side::White => 0,
        Side::Black => 6,
    };
    let kind_offset: int = match p.kind {
        PieceKind::Pawn => 0,
        PieceKind::Knight => 1,
        PieceKind::Bishop => 2,
        PieceKind::Rook => 3,
        PieceKind::Queen => 4,
        PieceKind::King => 5,
    };
    side_offset + kind_offset
}

/// A number 0..12 for each (side, kind).
pub fn piece_index(p: Piece) -> (r: u8)
    ensures
        r == piece_code(p),
        r < 12,
{
    let side_offset: u8 = match p.side {
        Side::White => 0,
        Side::Black => 6,
    };
    let kind_offset: u8 = match p.kind {
        PieceKind::Pawn => 0,
        PieceKind::Knight => 1,
        PieceKind::Bishop => 2,
        PieceKind::Rook => 3,
        PieceKind::Queen => 4,
        PieceKind::King => 5,
    };
    side_offset + kind_offset
}

/// XOR of the square keys of the first `n` squares (row-major).
pub open spec fn squares_hash(g: Grid, n: int) -> u64
    decreases n,
{
    if n <= 0 {
        0
    } else {
        let j = n - 1;
        let prev = squares_hash(g, j);
        match g[j / 8][j % 8] {
            Some(p) => prev ^ mix64((j * 16 + piece_code(p) + 1) as u64),
            None => prev,
        }
    }
}

pub open spec fn hash_of(g: Grid, turn: int, cr: CastleRights, ep: Option<Position>) -> u64 {
    let h0 = squares_hash(g, 64) ^ ((turn * 0x9e37_79b9_7f4a_7c15) as u64);
    let h1 = if cr.white_kingside {
        h0 ^ 0xbf58_476d_1ce4_e5b9
    } else {
        h0
    };
    let h2 = if cr.white_queenside {
        h1 ^ 0x94d0_49bb_1331_11eb
    } else {
        h1
    };
    let h3 = if cr.black_kingside {
        h2 ^ 0x0123_4567_89ab_cdef
    } else {
        h2
    };
    let h4 = if cr.black_queenside {
        h3 ^ 0xfedc_ba98_7654_3210
    } else {
        h3
    };
    match ep {
        Some(e) => h4 ^ mix64((e.col + 100) as u64),
        None => h4,
    }
}

/// Zobrist-style hash of a position (board, side to move, castling rights, en passant).
pub fn position_hash(
    board: &Board,
    current_turn: usize,
    castle_rights: &CastleRights,
    en_passant: Option<Position>,
) -> (h: u64)
    requires
        current_turn < 2,
    ensures
        h == hash_of(grid(*board), current_turn as int, *castle_rights, en_passant),
{
    let mut h: u64 = 0;
    let mut r: usize = 0;
    while r < 8
        invariant
            r <= 8,
            h == squares_hash(grid(*board), (r * 8) as int),
        decreases 8 - r,
    {
        let mut c: usize = 0;
        while c < 8
            invariant
                r < 8,
                c <= 8,
                h == squares_hash(grid(*board), (r * 8 + c) as int),
            decreases 8 - c,
        {
            let ghost j = (r * 8 + c) as int;
            assert(j / 8 == r && j % 8 == c);
            match board[r][c] {
                Some(p) => {
                    let idx = piece_index(p);
                    h = h ^ splitmix64((r as u64 * 8 + c as u64) * 16 + idx as u64 + 1);
                },
                None => {},
            }
            c += 1;
        }
        r += 1;
    }
    h = h ^ (current_turn as u64 * 0x9e37_79b9_7f4a_7c15);
    if castle_rights.white_kingside {
        h = h ^ 0xbf58_476d_1ce4_e5b9;
    }
    if castle_rights.white_queenside {
        h = h ^ 0x94d0_49bb_1331_11eb;
    }
    if castle_rights.black_kingside {
        h = h ^ 0x0123_4567_89ab_cdef;
    }
    if castle_rights.black_queenside {
        h = h ^ 0xfedc_ba98_7654_3210;
    }
    if let Some(ep) = en_passant {
        h = h ^ splitmix64(ep.col as u64 + 100);
    }
    h
}


/// The move can be made from this state: in bounds, a piece on the source square,
/// and room left in the counters.
pub open spec fn can_apply(s: &ChessState, mv: ChessMove) -> bool {
    &&& s.wf()
    &&& move_in_bounds(mv)
    &&& s.board[mv.from.row as int][mv.from.col as int].is_some()
    &&& s.halfmove_clock < u32::MAX
    &&& s.move_count < u32::MAX
}

/// The state after `side` plays `mv` from `s` (the history grows by the new hash).
pub open spec fn applied(s: &ChessState, side: Side, mv: ChessMove, t: &ChessState) -> bool {
    let g = grid(s.board);
    let mover = g[mv.from.row as int][mv.from.col as int]->Some_0;
    let ng = board_after(g, s.en_passant_target, side, mv);
    let resets = mover.kind == PieceKind::Pawn || g[mv.to.row as int][mv.to.col as int].is_some()
        || is_ep_capture(g, s.en_passant_target, mv);
    &&& grid(t.board) == ng
    &&& t.players == s.players
    &&& t.current_turn == 1 - s.current_turn
    &&& t.move_count == s.move_count + 1
    &&& t.halfmove_clock == (if resets {
        0
    } else {
        s.halfmove_clock + 1
    })
    &&& t.castle_rights == rights_after(s.castle_rights, side, mover, mv)
    &&& t.en_passant_target == ep_after(ng, side, mover, mv)
    &&& t.position_history@ == s.position_history@.push(
        hash_of(ng, t.current_turn as int, t.castle_rights, t.en_passant_target),
    )
}

fn rights_after_move(cr: CastleRights, side: Side, piece: Piece, mv: &ChessMove) -> (r: CastleRights)
    ensures
        r == rights_after(cr, side, piece, *mv),
{
    let mut rights = cr;
    if piece.kind == PieceKind::King {
        rights.clear_side(side);
    }
    if piece.kind == PieceKind::Rook {
        let br: u8 = match side {
            Side::White => 0,
            Side::Black => 7,
        };
        if mv.from.row == br {
            if mv.from.col == 0 {
                rights.clear_queenside(side);
            } else if mv.from.col == 7 {
                rights.clear_kingside(side);
            }
        }
    }
    let opp = side.opponent();
    let opp_back: u8 = match opp {
        Side::White => 0,
        Side::Black => 7,
    };
    if mv.to.row == opp_back && mv.to.col == 0 {
        rights.clear_queenside(opp);
    }
    if mv.to.row == opp_back && mv.to.col == 7 {
        rights.clear_kingside(opp);
    }
    rights
}

fn ep_target_after(board: &Board, side: Side, piece: Piece, mv: &ChessMove) -> (r: Option<Position>)
    requires
        move_in_bounds(*mv),
    ensures
        r == ep_after(grid(*board), side, piece, *mv),
{
    let is_pawn_move = piece.kind == PieceKind::Pawn;
    if is_pawn_move && (if mv.to.row >= mv.from.row {
        mv.to.row - mv.from.row == 2
    } else {
        mv.from.row - mv.to.row == 2
    }) {
        let ep_row: u8 = if mv.to.row > mv.from.row {
            mv.from.row + 1
        } else {
            mv.from.row - 1
        };
        let to_r = mv.to.row as i32;
        let to_c = mv.to.col as i32;
        let enemy = side.opponent();
        if piece_at_is(board, to_r, to_c - 1, enemy, PieceKind::Pawn) || piece_at_is(
            board,
            to_r,
            to_c + 1,
            enemy,
            PieceKind::Pawn,
        ) {
            Some(Position::new(ep_row, mv.from.col))
        } else {
            None
        }
    } else {
        None
    }
}

/// Apply a move, updating every field of the state.
pub fn apply_move_inner(state: &mut ChessState, side: Side, mv: &ChessMove)
    requires
        can_apply(old(state), *mv),
    ensures
        applied(old(state), side, *mv, final(state)),
{
    let fr = mv.from.row as usize;
    let fc = mv.from.col as usize;
    let tr = mv.to.row as usize;
    let tc = mv.to.col as usize;
    let piece = match state.board[fr][fc] {
        Some(p) => p,
        None => {
            return ;
        },
    };
    let is_pawn_move = piece.kind == PieceKind::Pawn;
    let is_capture = state.board[tr][tc].is_some();
    let ep_capture = is_pawn_move && match state.en_passant_target {
        Some(e) => mv.to == e,
        None => false,
    };
    if is_pawn_move || is_capture || ep_capture {
        state.halfmove_clock = 0;
    } else {
        state.halfmove_clock = state.halfmove_clock + 1;
    }
    state.board = board_after_move(&state.board, state.en_passant_target, side, mv);

    state.castle_rights = rights_after_move(state.castle_rights, side, piece, mv);
    state.en_passant_target = ep_target_after(&state.board, side, piece, mv);
    proof {
        let g = grid(old(state).board);
        assert(piece == g[mv.from.row as int][mv.from.col as int]->Some_0);
    }
    state.move_count = state.move_count + 1;
    state.current_turn = 1 - state.current_turn;
    let hash = position_hash(
        &state.board,
        state.current_turn,
        &state.castle_rights,
        state.en_passant_target,
    );
    state.position_history.push(hash);
}

/// Clone the state and apply `mv` to the copy.
pub fn clone_and_apply_pseudo(state: &ChessState, mv: &ChessMove) -> (next: ChessState)
    requires
        can_apply(state, *mv),
    ensures
        applied(state, turn_side(state.current_turn as int), *mv, &next),
{
    let mut next = state.clone_state();
    let side = side_for_turn(state.current_turn);
    apply_move_inner(&mut next, side, mv);
    next
}


// ---------------------------------------------------------------------------
// Legal moves
// ---------------------------------------------------------------------------

/// The pseudo-legal moves of the piece on square index `i`, if it belongs to `side`.
pub open spec fn square_moves(
    g: Grid,
    cr: CastleRights,
    ep: Option<Position>,
    turn: int,
    side: Side,
    i: int,
) -> Seq<ChessMove> {
    match g[i / 8][i % 8] {
        Some(p) => if p.side == side {
            pseudo_moves(g, cr, ep, turn, pos_of(i / 8, i % 8), p)
        } else {
            Seq::empty()
        },
        None => Seq::empty(),
    }
}

/// Pseudo-legal moves of `side`'s pieces on the first `n` squares, in row-major order.
pub open spec fn all_pseudo(
    g: Grid,
    cr: CastleRights,
    ep: Option<Position>,
    turn: int,
    side: Side,
    n: int,
) -> Seq<ChessMove>
    decreases n,
{
    if n <= 0 {
        Seq::empty()
    } else {
        all_pseudo(g, cr, ep, turn, side, n - 1) + square_moves(g, cr, ep, turn, side, n - 1)
    }
}

/// A pseudo-legal move is kept when it does not capture a king and does not leave
/// the mover's own king attacked.
pub open spec fn keeps_king_safe(g: Grid, ep: Option<Position>, side: Side, m: ChessMove) -> bool {
    &&& !(at(g, m.to.row as int, m.to.col as int) matches Some(t) && t.kind == PieceKind::King)
    &&& !king_in_check(board_after(g, ep, side, m), side)
}

pub open spec fn keep_pred(g: Grid, ep: Option<Position>, side: Side) -> spec_fn(ChessMove) -> bool {
    |m: ChessMove| keeps_king_safe(g, ep, side, m)
}

/// All legal moves of the side to move, in generation order.
pub open spec fn legal_move_list(g: Grid, cr: CastleRights, ep: Option<Position>, turn: int) -> Seq<
    ChessMove,
> {
    let side = turn_side(turn);
    all_pseudo(g, cr, ep, turn, side, 64).filter(keep_pred(g, ep, side))
}

pub open spec fn legal_moves_of(s: &ChessState) -> Seq<ChessMove> {
    legal_move_list(grid(s.board), s.castle_rights, s.en_passant_target, s.current_turn as int)
}

/// Every generated move starts on `from` and lands on the board.
pub open spec fn shaped(ms: Seq<ChessMove>, from: Position) -> bool {
    forall|j: int| 0 <= j < ms.len() ==> #[trigger] ms[j].from == from && move_in_bounds(ms[j])
}

proof fn lemma_slide_shape(
    g: Grid,
    from: Position,
    side: Side,
    r: int,
    c: int,
    dr: int,
    dc: int,
    fuel: nat,
)
    requires
        from.row < 8,
        from.col < 8,
    ensures
        shaped(slide(g, from, side, r, c, dr, dc, fuel), from),
    decreases fuel,
{
    if fuel > 0 && on_board(r, c) {
        lemma_slide_shape(g, from, side, r + dr, c + dc, dr, dc, (fuel - 1) as nat);
    }
}

proof fn lemma_leap_shape(g: Grid, from: Position, side: Side, dr: int, dc: int)
    requires
        from.row < 8,
        from.col < 8,
    ensures
        shaped(leap(g, from, side, dr, dc), from),
{
    reveal(leap);
}

proof fn lemma_shaped_add(a: Seq<ChessMove>, b: Seq<ChessMove>, from: Position)
    requires
        shaped(a, from),
        shaped(b, from),
    ensures
        shaped(a + b, from),
{
    assert forall|j: int| 0 <= j < (a + b).len() implies #[trigger] (a + b)[j].from == from
        && move_in_bounds((a + b)[j]) by {
        if j < a.len() {
            assert((a + b)[j] == a[j]);
        } else {
            assert((a + b)[j] == b[j - a.len()]);
        }
    }
}

proof fn lemma_pseudo_shape(
    g: Grid,
    cr: CastleRights,
    ep: Option<Position>,
    turn: int,
    from: Position,
    p: Piece,
)
    requires
        from.row < 8,
        from.col < 8,
    ensures
        shaped(pseudo_moves(g, cr, ep, turn, from, p), from),
{
    let side = p.side;
    let r = from.row as int;
    let c = from.col as int;
    lemma_slide_shape(g, from, side, r - 1, c - 1, -1, -1, 8);
    lemma_slide_shape(g, from, side, r - 1, c + 1, -1, 1, 8);
    lemma_slide_shape(g, from, side, r + 1, c - 1, 1, -1, 8);
    lemma_slide_shape(g, from, side, r + 1, c + 1, 1, 1, 8);
    lemma_slide_shape(g, from, side, r - 1, c, -1, 0, 8);
    lemma_slide_shape(g, from, side, r + 1, c, 1, 0, 8);
    lemma_slide_shape(g, from, side, r, c - 1, 0, -1, 8);
    lemma_slide_shape(g, from, side, r, c + 1, 0, 1, 8);
    let d1 = ray(g, from, side, -1, -1);
    let d2 = ray(g, from, side, -1, 1);
    let d3 = ray(g, from, side, 1, -1);
    let d4 = ray(g, from, side, 1, 1);
    lemma_shaped_add(d1, d2, from);
    lemma_shaped_add(d1 + d2, d3, from);
    lemma_shaped_add(d1 + d2 + d3, d4, from);
    let s1 = ray(g, from, side, -1, 0);
    let s2 = ray(g, from, side, 1, 0);
    let s3 = ray(g, from, side, 0, -1);
    let s4 = ray(g, from, side, 0, 1);
    lemma_shaped_add(s1, s2, from);
    lemma_shaped_add(s1 + s2, s3, from);
    lemma_shaped_add(s1 + s2 + s3, s4, from);
    lemma_shaped_add(diagonal_moves(g, from, side), straight_moves(g, from, side), from);
    match p.kind {
        PieceKind::Knight => {
            let ls = seq![
                leap(g, from, side, -2, -1),
                leap(g, from, side, -2, 1),
                leap(g, from, side, -1, -2),
                leap(g, from, side, -1, 2),
                leap(g, from, side, 1, -2),
                leap(g, from, side, 1, 2),
                leap(g, from, side, 2, -1),
                leap(g, from, side, 2, 1),
            ];
            lemma_leap_shape(g, from, side, -2, -1);
            lemma_leap_shape(g, from, side, -2, 1);
            lemma_leap_shape(g, from, side, -1, -2);
            lemma_leap_shape(g, from, side, -1, 2);
            lemma_leap_shape(g, from, side, 1, -2);
            lemma_leap_shape(g, from, side, 1, 2);
            lemma_leap_shape(g, from, side, 2, -1);
            lemma_leap_shape(g, from, side, 2, 1);
            lemma_shaped_add(ls[0], ls[1], from);
            lemma_shaped_add(ls[0] + ls[1], ls[2], from);
            lemma_shaped_add(ls[0] + ls[1] + ls[2], ls[3], from);
            lemma_shaped_add(ls[0] + ls[1] + ls[2] + ls[3], ls[4], from);
            lemma_shaped_add(ls[0] + ls[1] + ls[2] + ls[3] + ls[4], ls[5], from);
            lemma_shaped_add(ls[0] + ls[1] + ls[2] + ls[3] + ls[4] + ls[5], ls[6], from);
            lemma_shaped_add(ls[0] + ls[1] + ls[2] + ls[3] + ls[4] + ls[5] + ls[6], ls[7], from);
        },
        PieceKind::King => {
            let ls = seq![
                leap(g, from, side, -1, -1),
                leap(g, from, side, -1, 0),
                leap(g, from, side, -1, 1),
                leap(g, from, side, 0, -1),
                leap(g, from, side, 0, 1),
                leap(g, from, side, 1, -1),
                leap(g, from, side, 1, 0),
                leap(g, from, side, 1, 1),
            ];
            lemma_leap_shape(g, from, side, -1, -1);
            lemma_leap_shape(g, from, side, -1, 0);
            lemma_leap_shape(g, from, side, -1, 1);
            lemma_leap_shape(g, from, side, 0, -1);
            lemma_leap_shape(g, from, side, 0, 1);
            lemma_leap_shape(g, from, side, 1, -1);
            lemma_leap_shape(g, from, side, 1, 0);
            lemma_leap_shape(g, from, side, 1, 1);
            lemma_shaped_add(ls[0], ls[1], from);
            lemma_shaped_add(ls[0] + ls[1], ls[2], from);
            lemma_shaped_add(ls[0] + ls[1] + ls[2], ls[3], from);
            lemma_shaped_add(ls[0] + ls[1] + ls[2] + ls[3], ls[4], from);
            lemma_shaped_add(ls[0] + ls[1] + ls[2] + ls[3] + ls[4], ls[5], from);
            lemma_shaped_add(ls[0] + ls[1] + ls[2] + ls[3] + ls[4] + ls[5], ls[6], from);
            lemma_shaped_add(ls[0] + ls[1] + ls[2] + ls[3] + ls[4] + ls[5] + ls[6], ls[7], from);
            lemma_shaped_add(king_steps(g, from, side), castles(g, cr, turn, from, side), from);
        },
        PieceKind::Pawn => {
            let a = pawn_pushes(g, from, side);
            let b1 = pawn_capture(g, ep, from, side, -1);
            let b2 = pawn_capture(g, ep, from, side, 1);
            lemma_shaped_add(a, b1, from);
            lemma_shaped_add(a + b1, b2, from);
        },
        _ => {},
    }
}


/// `m` is a pseudo-legal move of a piece of `side` standing on `m.from`.
pub open spec fn pseudo_of_own(
    g: Grid,
    cr: CastleRights,
    ep: Option<Position>,
    turn: int,
    side: Side,
    m: ChessMove,
) -> bool {
    &&& move_in_bounds(m)
    &&& g[m.from.row as int][m.from.col as int] matches Some(p)
    &&& p.side == side
    &&& pseudo_moves(g, cr, ep, turn, m.from, p).contains(m)
}

proof fn lemma_all_pseudo_own(
    g: Grid,
    cr: CastleRights,
    ep: Option<Position>,
    turn: int,
    side: Side,
    n: int,
)
    requires
        0 <= n <= 64,
    ensures
        forall|j: int|
            0 <= j < all_pseudo(g, cr, ep, turn, side, n).len() ==> pseudo_of_own(
                g,
                cr,
                ep,
                turn,
                side,
                #[trigger] all_pseudo(g, cr, ep, turn, side, n)[j],
            ),
    decreases n,
{
    if n > 0 {
        lemma_all_pseudo_own(g, cr, ep, turn, side, n - 1);
        let prev = all_pseudo(g, cr, ep, turn, side, n - 1);
        let cur = square_moves(g, cr, ep, turn, side, n - 1);
        let i = n - 1;
        assert forall|j: int| 0 <= j < (prev + cur).len() implies pseudo_of_own(
            g,
            cr,
            ep,
            turn,
            side,
            #[trigger] (prev + cur)[j],
        ) by {
            if j < prev.len() {
                assert((prev + cur)[j] == prev[j]);
            } else {
                let k = j - prev.len();
                assert((prev + cur)[j] == cur[k]);
                let from = pos_of(i / 8, i % 8);
                let p = g[i / 8][i % 8]->Some_0;
                lemma_pseudo_shape(g, cr, ep, turn, from, p);
                assert(cur[k].from == from);
                assert(pseudo_moves(g, cr, ep, turn, from, p).contains(cur[k]));
            }
        }
    }
}

/// Generate all legal moves for the current player.
pub fn legal_moves(state: &ChessState) -> (res: Vec<ChessMove>)
    ensures
        res@ == legal_moves_of(state),
{
    let side = side_for_turn(state.current_turn);
    let ghost g = grid(state.board);
    let ghost cr = state.castle_rights;
    let ghost ep = state.en_passant_target;
    let ghost turn = state.current_turn as int;
    let mut pseudo: Vec<ChessMove> = Vec::new();
    let mut r: usize = 0;
    while r < 8
        invariant
            r <= 8,
            side == turn_side(turn),
            g == grid(state.board),
            cr == state.castle_rights,
            ep == state.en_passant_target,
            turn == state.current_turn,
            pseudo@ == all_pseudo(g, cr, ep, turn, side, (r * 8) as int),
        decreases 8 - r,
    {
        let mut c: usize = 0;
        while c < 8
            invariant
                r < 8,
                c <= 8,
                side == turn_side(turn),
                g == grid(state.board),
                cr == state.castle_rights,
                ep == state.en_passant_target,
                turn == state.current_turn,
                pseudo@ == all_pseudo(g, cr, ep, turn, side, (r * 8 + c) as int),
            decreases 8 - c,
        {
            let ghost i = (r * 8 + c) as int;
            assert(i / 8 == r && i % 8 == c);
            let ghost before = pseudo@;
            if let Some(piece) = state.board[r][c] {
                if piece.side == side {
                    pseudo_moves_for_piece(
                        state,
                        Position::new(r as u8, c as u8),
                        piece,
                        &mut pseudo,
                    );
                }
            }
            assert(pseudo@ =~= before + square_moves(g, cr, ep, turn, side, i));
            c += 1;
        }
        r += 1;
    }
    proof {
        lemma_all_pseudo_own(g, cr, ep, turn, side, 64);
    }
    let ghost all = pseudo@;
    let ghost pred = keep_pred(g, ep, side);
    let mut res: Vec<ChessMove> = Vec::new();
    let mut i: usize = 0;
    while i < pseudo.len()
        invariant
            i <= pseudo.len(),
            all == pseudo@,
            all == all_pseudo(g, cr, ep, turn, side, 64),
            forall|j: int| 0 <= j < all.len() ==> pseudo_of_own(g, cr, ep, turn, side, #[trigger] all[j]),
            g == grid(state.board),
            ep == state.en_passant_target,
            pred == keep_pred(g, ep, side),
            res@ == all.take(i as int).filter(pred),
        decreases pseudo.len() - i,
    {
        let m = pseudo[i];
        assert(pseudo_of_own(g, cr, ep, turn, side, all[i as int]));
        let to_is_king = match state.board[m.to.row as usize][m.to.col as usize] {
            Some(t) => t.kind == PieceKind::King,
            None => false,
        };
        let keep = if to_is_king {
            false
        } else {
            let nb = board_after_move(&state.board, state.en_passant_target, side, &m);
            !in_check_of(&nb, side)
        };
        assert(keep == pred(m));
        if keep {
            res.push(m);
        }
        proof {
            assert(all.take(i + 1) =~= all.take(i as int).push(m));
            all.take(i as int).lemma_filter_push(m, pred);
        }
        i += 1;
    }
    assert(all.take(all.len() as int) =~= all);
    res
}


// ---------------------------------------------------------------------------
// Move validation
// ---------------------------------------------------------------------------

/// Why `side` may not play `mv`, or `None` when the move is legal. Checked in order:
/// bounds, ownership of the source square, no king capture, the promotion field
/// (required exactly when a pawn reaches the last row, never a king or pawn), the
/// piece's movement rules, and own-king safety afterwards.
pub open spec fn rejection(
    g: Grid,
    cr: CastleRights,
    ep: Option<Position>,
    turn: int,
    side: Side,
    mv: ChessMove,
) -> Option<Seq<char>> {
    if !move_in_bounds(mv) {
        Some("position out of bounds"@)
    } else {
        match g[mv.from.row as int][mv.from.col as int] {
            None => Some("no piece on the source square"@),
            Some(piece) => if piece.side != side {
                Some("that piece belongs to your opponent"@)
            } else if g[mv.to.row as int][mv.to.col as int] matches Some(t) && t.kind
                == PieceKind::King {
                Some("a king cannot be captured"@)
            } else if piece.kind == PieceKind::Pawn && mv.to.row as int == last_row(side)
                && mv.promotion.is_none() {
                Some("must specify promotion piece"@)
            } else if piece.kind == PieceKind::Pawn && mv.to.row as int == last_row(side) && (
            mv.promotion == Some(PieceKind::King) || mv.promotion == Some(PieceKind::Pawn)) {
                Some("invalid promotion piece"@)
            } else if !(piece.kind == PieceKind::Pawn && mv.to.row as int == last_row(side))
                && mv.promotion.is_some() {
                Some("promotion field set on non-promoting move"@)
            } else if !pseudo_moves(g, cr, ep, turn, mv.from, piece).contains(mv) {
                Some("illegal move for this piece"@)
            } else if king_in_check(board_after(g, ep, turn_side(turn), mv), side) {
                Some("move leaves king in check"@)
            } else {
                None
            },
        }
    }
}

pub open spec fn rejection_of(s: &ChessState, side: Side, mv: ChessMove) -> Option<Seq<char>> {
    rejection(
        grid(s.board),
        s.castle_rights,
        s.en_passant_target,
        s.current_turn as int,
        side,
        mv,
    )
}

fn contains_move(moves: &Vec<ChessMove>, mv: &ChessMove) -> (res: bool)
    ensures
        res == moves@.contains(*mv),
{
    let mut i: usize = 0;
    while i < moves.len()
        invariant
            i <= moves.len(),
            forall|j: int| 0 <= j < i ==> moves@[j] != *mv,
        decreases moves.len() - i,
    {
        if moves[i] == *mv {
            return true;
        }
        i += 1;
    }
    false
}

/// Validate a move for `side` (pseudo-legal and leaves its king safe).
pub fn validate_move_inner(state: &ChessState, side: Side, mv: &ChessMove) -> (res: Result<(), String>)
    ensures
        match res {
            Ok(()) => rejection_of(state, side, *mv).is_none(),
            Err(e) => rejection_of(state, side, *mv) == Some(e@),
        },
{
    if mv.from.row >= 8 || mv.from.col >= 8 || mv.to.row >= 8 || mv.to.col >= 8 {
        return Err("position out of bounds".to_owned());
    }
    let piece = match state.board[mv.from.row as usize][mv.from.col as usize] {
        Some(p) => {
            if p.side == side {
                p
            } else {
                return Err("that piece belongs to your opponent".to_owned());
            }
        },
        None => {
            return Err("no piece on the source square".to_owned());
        },
    };
    if let Some(target) = state.board[mv.to.row as usize][mv.to.col as usize] {
        if target.kind == PieceKind::King {
            return Err("a king cannot be captured".to_owned());
        }
    }
    let promo_row: u8 = match side {
        Side::White => 7,
        Side::Black => 0,
    };
    if piece.kind == PieceKind::Pawn && mv.to.row == promo_row {
        match mv.promotion {
            None => {
                return Err("must specify promotion piece".to_owned());
            },
            Some(PieceKind::King) | Some(PieceKind::Pawn) => {
                return Err("invalid promotion piece".to_owned());
            },
            Some(_) => {},
        }
    } else if mv.promotion.is_some() {
        return Err("promotion field set on non-promoting move".to_owned());
    }
    let mut pseudo: Vec<ChessMove> = Vec::new();
    pseudo_moves_for_piece(state, mv.from, piece, &mut pseudo);
    assert(pseudo@ =~= pseudo_moves(
        grid(state.board),
        state.castle_rights,
        state.en_passant_target,
        state.current_turn as int,
        mv.from,
        piece,
    ));
    if !contains_move(&pseudo, mv) {
        return Err("illegal move for this piece".to_owned());
    }
    let nb = board_after_move(
        &state.board,
        state.en_passant_target,
        side_for_turn(state.current_turn),
        mv,
    );
    if in_check_of(&nb, side) {
        return Err("move leaves king in check".to_owned());
    }
    Ok(())
}


// ---------------------------------------------------------------------------
// Game end: insufficient material and repetition
// ---------------------------------------------------------------------------

/// (kind, row, col) of every piece of `side` on the first `n` squares, row-major.
pub open spec fn side_pieces(g: Grid, side: Side, n: int) -> Seq<(PieceKind, u8, u8)>
    decreases n,
{
    if n <= 0 {
        Seq::empty()
    } else {
        let j = n - 1;
        let prev = side_pieces(g, side, j);
        match g[j / 8][j % 8] {
            Some(p) => if p.side == side {
                prev.push((p.kind, (j / 8) as u8, (j % 8) as u8))
            } else {
                prev
            },
            None => prev,
        }
    }
}

pub open spec fn lone_king(ps: Seq<(PieceKind, u8, u8)>) -> bool {
    ps.len() == 1 && ps[0].0 == PieceKind::King
}

pub open spec fn minor(k: PieceKind) -> bool {
    k == PieceKind::Bishop || k == PieceKind::Knight
}

/// Exactly a king and a bishop or knight.
pub open spec fn king_and_minor(ps: Seq<(PieceKind, u8, u8)>) -> bool {
    ps.len() == 2 && (ps[0].0 == PieceKind::King || ps[1].0 == PieceKind::King) && (minor(ps[0].0)
        || minor(ps[1].0))
}

pub open spec fn king_or_bishop(k: PieceKind) -> bool {
    k == PieceKind::King || k == PieceKind::Bishop
}

/// For a king-and-bishop set, the bishop's square.
pub open spec fn bishop_square(ps: Seq<(PieceKind, u8, u8)>) -> Option<(u8, u8)> {
    if ps.len() != 2 || !king_or_bishop(ps[0].0) || !king_or_bishop(ps[1].0) {
        None
    } else if ps[0].0 != PieceKind::King && ps[1].0 != PieceKind::King {
        None
    } else if ps[1].0 == PieceKind::Bishop {
        Some((ps[1].1, ps[1].2))
    } else if ps[0].0 == PieceKind::Bishop {
        Some((ps[0].1, ps[0].2))
    } else {
        None
    }
}

/// K v K, K v K+B, K v K+N, or K+B v K+B with bishops on same-coloured squares.
pub open spec fn insufficient(g: Grid) -> bool {
    let w = side_pieces(g, Side::White, 64);
    let b = side_pieces(g, Side::Black, 64);
    ||| w.len() == 1 && b.len() == 1
    ||| lone_king(w) && king_and_minor(b)
    ||| lone_king(b) && king_and_minor(w)
    ||| (bishop_square(w) matches Some(ws) && bishop_square(b) matches Some(bs) && (ws.0 + ws.1)
        % 2 == (bs.0 + bs.1) % 2)
}

fn collect_pieces(board: &Board, side: Side) -> (res: Vec<(PieceKind, u8, u8)>)
    ensures
        res@ == side_pieces(grid(*board), side, 64),
        forall|j: int| 0 <= j < res@.len() ==> #[trigger] res@[j].1 < 8 && res@[j].2 < 8,
{
    let mut out: Vec<(PieceKind, u8, u8)> = Vec::new();
    let mut r: usize = 0;
    while r < 8
        invariant
            r <= 8,
            out@ == side_pieces(grid(*board), side, (r * 8) as int),
            forall|j: int| 0 <= j < out@.len() ==> #[trigger] out@[j].1 < 8 && out@[j].2 < 8,
        decreases 8 - r,
    {
        let mut c: usize = 0;
        while c < 8
            invariant
                r < 8,
                c <= 8,
                out@ == side_pieces(grid(*board), side, (r * 8 + c) as int),
                forall|j: int| 0 <= j < out@.len() ==> #[trigger] out@[j].1 < 8 && out@[j].2 < 8,
            decreases 8 - c,
        {
            let ghost i = (r * 8 + c) as int;
            assert(i / 8 == r && i % 8 == c);
            if let Some(p) = board[r][c] {
                if p.side == side {
                    out.push((p.kind, r as u8, c as u8));
                }
            }
            c += 1;
        }
        r += 1;
    }
    out
}

fn bishop_square_of(ps: &Vec<(PieceKind, u8, u8)>) -> (res: Option<(u8, u8)>)
    ensures
        res == bishop_square(ps@),
{
    if ps.len() != 2 {
        return None;
    }
    let mut bishop_sq: Option<(u8, u8)> = None;
    let mut has_king = false;
    let mut i: usize = 0;
    while i < 2
        invariant
            ps.len() == 2,
            i <= 2,
            forall|j: int| 0 <= j < i ==> king_or_bishop(#[trigger] ps@[j].0),
            has_king == (exists|j: int| 0 <= j < i && #[trigger] ps@[j].0 == PieceKind::King),
            bishop_sq == (if i >= 2 && ps@[1].0 == PieceKind::Bishop {
                Some((ps@[1].1, ps@[1].2))
            } else if i >= 1 && ps@[0].0 == PieceKind::Bishop {
                Some((ps@[0].1, ps@[0].2))
            } else {
                None::<(u8, u8)>
            }),
        decreases 2 - i,
    {
        let (kind, r, c) = ps[i];
        match kind {
            PieceKind::King => has_king = true,
            PieceKind::Bishop => bishop_sq = Some((r, c)),
            _ => {
                return None;
            },
        }
        i += 1;
    }
    assert(has_king == (ps@[0].0 == PieceKind::King || ps@[1].0 == PieceKind::King));
    if has_king {
        bishop_sq
    } else {
        None
    }
}

fn is_king_and_minor(ps: &Vec<(PieceKind, u8, u8)>) -> (res: bool)
    ensures
        res == king_and_minor(ps@),
{
    if ps.len() != 2 {
        return false;
    }
    let k0 = ps[0].0;
    let k1 = ps[1].0;
    (k0 == PieceKind::King || k1 == PieceKind::King) && (k0 == PieceKind::Bishop || k0
        == PieceKind::Knight || k1 == PieceKind::Bishop || k1 == PieceKind::Knight)
}

/// Is there too little material left for either side to mate?
pub fn is_insufficient_material(board: &Board) -> (res: bool)
    ensures
        res == insufficient(grid(*board)),
{
    let white = collect_pieces(board, Side::White);
    let black = collect_pieces(board, Side::Black);
    if white.len() == 1 && black.len() == 1 {
        return true;
    }
    let white_lone = white.len() == 1 && white[0].0 == PieceKind::King;
    let black_lone = black.len() == 1 && black[0].0 == PieceKind::King;
    if white_lone && is_king_and_minor(&black) {
        return true;
    }
    if black_lone && is_king_and_minor(&white) {
        return true;
    }
    match (bishop_square_of(&white), bishop_square_of(&black)) {
        (Some((wr, wc)), Some((br, bc))) => {
            assert(wr < 8 && wc < 8 && br < 8 && bc < 8);
            (wr + wc) % 2 == (br + bc) % 2
        },
        _ => false,
    }
}

/// Some position occurs three times in the history.
pub open spec fn threefold(h: Seq<u64>) -> bool {
    exists|i: int, j: int, k: int|
        0 <= i < j < k < h.len() && #[trigger] h[i] == #[trigger] h[j] && h[j] == #[trigger] h[k]
}

fn has_threefold(h: &Vec<u64>) -> (res: bool)
    ensures
        res == threefold(h@),
{
    let mut k: usize = 0;
    while k < h.len()
        invariant
            k <= h.len(),
            forall|i: int, j: int, l: int|
                0 <= i < j < l < k ==> !(h@[i] == h@[j] && h@[j] == h@[l]),
        decreases h.len() - k,
    {
        let mut first: Option<usize> = None;
        let mut j: usize = 0;
        while j < k
            invariant
                j <= k < h.len(),
                first matches Some(i) ==> i < j && h@[i as int] == h@[k as int] && forall|x: int|
                    0 <= x < j && x != i ==> h@[x] != h@[k as int],
                first.is_none() ==> forall|x: int| 0 <= x < j ==> h@[x] != h@[k as int],
            decreases k - j,
        {
            if h[j] == h[k] {
                if let Some(i) = first {
                    assert(h@[i as int] == h@[j as int] && h@[j as int] == h@[k as int]);
                    return true;
                }
                first = Some(j);
            }
            j += 1;
        }
        k += 1;
    }
    false
}


// ---------------------------------------------------------------------------
// Engine
// ---------------------------------------------------------------------------

pub open spec fn home_kind(c: int) -> PieceKind {
    if c == 0 || c == 7 {
        PieceKind::Rook
    } else if c == 1 || c == 6 {
        PieceKind::Knight
    } else if c == 2 || c == 5 {
        PieceKind::Bishop
    } else if c == 3 {
        PieceKind::Queen
    } else {
        PieceKind::King
    }
}

/// The standard starting position.
pub open spec fn start_square(r: int, c: int) -> Option<Piece> {
    if r == 0 {
        Some(Piece { kind: home_kind(c), side: Side::White })
    } else if r == 1 {
        Some(Piece { kind: PieceKind::Pawn, side: Side::White })
    } else if r == 6 {
        Some(Piece { kind: PieceKind::Pawn, side: Side::Black })
    } else if r == 7 {
        Some(Piece { kind: home_kind(c), side: Side::Black })
    } else {
        None
    }
}

/// How the game stands: checkmate (the side to move loses) or stalemate when no
/// legal move is left; otherwise a draw by the 50-move rule, threefold repetition
/// or insufficient material; otherwise still going.
pub open spec fn chess_outcome(s: &ChessState) -> Option<GameOutcome> {
    let g = grid(s.board);
    let side = turn_side(s.current_turn as int);
    if legal_moves_of(s).len() == 0 {
        if king_in_check(g, side) {
            Some(GameOutcome::Win(s.players[1 - s.current_turn]))
        } else {
            Some(GameOutcome::Draw)
        }
    } else if s.halfmove_clock >= 100 {
        Some(GameOutcome::Draw)
    } else if threefold(s.position_history@) {
        Some(GameOutcome::Draw)
    } else if insufficient(g) {
        Some(GameOutcome::Draw)
    } else {
        None
    }
}

pub struct Chess;

impl Chess {
    /// The starting position; players[0] takes White and moves first.
    pub fn initial_state(players: &[PlayerId], _settings: &GameSettings) -> (s: ChessState)
        requires
            players@.len() >= 2,
        ensures
            forall|r: int, c: int| 0 <= r < 8 && 0 <= c < 8 ==> #[trigger] s.board[r][c] == start_square(r, c),
            s.players == [players@[0], players@[1]],
            s.current_turn == 0,
            s.move_count == 0,
            s.halfmove_clock == 0,
            s.castle_rights == (CastleRights {
                white_kingside: true,
                white_queenside: true,
                black_kingside: true,
                black_queenside: true,
            }),
            s.en_passant_target.is_none(),
            s.position_history@ == seq![hash_of(grid(s.board), 0, s.castle_rights, None)],
    {
        let mut board: Board = [[None; 8]; 8];
        let w = Side::White;
        let b = Side::Black;
        board[0][0] = Some(Piece { kind: PieceKind::Rook, side: w });
        board[0][1] = Some(Piece { kind: PieceKind::Knight, side: w });
        board[0][2] = Some(Piece { kind: PieceKind::Bishop, side: w });
        board[0][3] = Some(Piece { kind: PieceKind::Queen, side: w });
        board[0][4] = Some(Piece { kind: PieceKind::King, side: w });
        board[0][5] = Some(Piece { kind: PieceKind::Bishop, side: w });
        board[0][6] = Some(Piece { kind: PieceKind::Knight, side: w });
        board[0][7] = Some(Piece { kind: PieceKind::Rook, side: w });
        board[7][0] = Some(Piece { kind: PieceKind::Rook, side: b });
        board[7][1] = Some(Piece { kind: PieceKind::Knight, side: b });
        board[7][2] = Some(Piece { kind: PieceKind::Bishop, side: b });
        board[7][3] = Some(Piece { kind: PieceKind::Queen, side: b });
        board[7][4] = Some(Piece { kind: PieceKind::King, side: b });
        board[7][5] = Some(Piece { kind: PieceKind::Bishop, side: b });
        board[7][6] = Some(Piece { kind: PieceKind::Knight, side: b });
        board[7][7] = Some(Piece { kind: PieceKind::Rook, side: b });
        board[1] = [Some(Piece { kind: PieceKind::Pawn, side: w }); 8];
        board[6] = [Some(Piece { kind: PieceKind::Pawn, side: b }); 8];
        assert forall|r: int, c: int| 0 <= r < 8 && 0 <= c < 8 implies #[trigger] board[r][c]
            == start_square(r, c) by {
            if r == 0 || r == 7 {
                assert(0 <= c < 8);
            }
        }
        let rights = CastleRights::all();
        let hash = position_hash(&board, 0, &rights, None);
        let mut history: Vec<u64> = Vec::new();
        history.push(hash);
        assert(history@ =~= seq![hash]);
        ChessState {
            board,
            players: [players[0], players[1]],
            current_turn: 0,
            move_count: 0,
            halfmove_clock: 0,
            castle_rights: rights,
            en_passant_target: None,
            position_history: history,
        }
    }

    /// Accept the move only from the player whose turn it is, and only if it is legal.
    pub fn validate_move(state: &ChessState, player: PlayerId, mv: &ChessMove) -> (res: Result<
        (),
        String,
    >)
        requires
            state.wf(),
        ensures
            state.players[state.current_turn as int] != player ==> (res matches Err(e) && e@
                == "not your turn"@),
            state.players[state.current_turn as int] == player ==> match res {
                Ok(()) => rejection_of(state, turn_side(state.current_turn as int), *mv).is_none(),
                Err(e) => rejection_of(state, turn_side(state.current_turn as int), *mv) == Some(
                    e@,
                ),
            },
    {
        if state.players[state.current_turn] != player {
            return Err("not your turn".to_owned());
        }
        let side = side_for_turn(state.current_turn);
        validate_move_inner(state, side, mv)
    }

    /// Play a (validated) move for the side to move.
    pub fn apply_move(state: &mut ChessState, _player: PlayerId, mv: &ChessMove)
        requires
            can_apply(old(state), *mv),
        ensures
            applied(old(state), turn_side(old(state).current_turn as int), *mv, final(state)),
    {
        let side = side_for_turn(state.current_turn);
        apply_move_inner(state, side, mv);
    }

    /// The outcome if the game is over (see `chess_outcome`).
    pub fn is_terminal(state: &ChessState) -> (res: Option<GameOutcome>)
        requires
            state.wf(),
        ensures
            res == chess_outcome(state),
    {
        let moves = legal_moves(state);
        if moves.len() == 0 {
            let side = side_for_turn(state.current_turn);
            if in_check(state, side) {
                let winner = state.players[1 - state.current_turn];
                return Some(GameOutcome::Win(winner));
            } else {
                return Some(GameOutcome::Draw);
            }
        }
        if state.halfmove_clock >= 100 {
            return Some(GameOutcome::Draw);
        }
        if has_threefold(&state.position_history) {
            return Some(GameOutcome::Draw);
        }
        if is_insufficient_material(&state.board) {
            return Some(GameOutcome::Draw);
        }
        None
    }

    /// The player whose turn it is.
    pub fn current_player(state: &ChessState) -> (p: PlayerId)
        requires
            state.wf(),
        ensures
            p == state.players[state.current_turn as int],
    {
        state.players[state.current_turn]
    }
}


// ---------------------------------------------------------------------------
// Laws
// ---------------------------------------------------------------------------

/// The promotion field of a move by `p`: a promotion piece other than king or pawn
/// exactly when a pawn reaches its last row, nothing otherwise.
pub open spec fn promo_shape(m: ChessMove, p: Piece) -> bool {
    if p.kind == PieceKind::Pawn && m.to.row as int == last_row(p.side) {
        m.promotion matches Some(k) && k != PieceKind::King && k != PieceKind::Pawn
    } else {
        m.promotion.is_none()
    }
}

pub open spec fn promo_shaped(ms: Seq<ChessMove>, p: Piece) -> bool {
    forall|j: int| 0 <= j < ms.len() ==> #[trigger] promo_shape(ms[j], p)
}

proof fn lemma_promo_add(a: Seq<ChessMove>, b: Seq<ChessMove>, p: Piece)
    requires
        promo_shaped(a, p),
        promo_shaped(b, p),
    ensures
        promo_shaped(a + b, p),
{
    assert forall|j: int| 0 <= j < (a + b).len() implies #[trigger] promo_shape((a + b)[j], p) by {
        if j < a.len() {
            assert((a + b)[j] == a[j]);
        } else {
            assert((a + b)[j] == b[j - a.len()]);
        }
    }
}

proof fn lemma_slide_plain(
    g: Grid,
    from: Position,
    side: Side,
    r: int,
    c: int,
    dr: int,
    dc: int,
    fuel: nat,
)
    ensures
        forall|j: int| 0 <= j < slide(g, from, side, r, c, dr, dc, fuel).len() ==> (#[trigger] slide(
            g,
            from,
            side,
            r,
            c,
            dr,
            dc,
            fuel,
        )[j]).promotion.is_none(),
    decreases fuel,
{
    if fuel > 0 && on_board(r, c) {
        lemma_slide_plain(g, from, side, r + dr, c + dc, dr, dc, (fuel - 1) as nat);
    }
}

proof fn lemma_plain_promo(ms: Seq<ChessMove>, p: Piece)
    requires
        p.kind != PieceKind::Pawn,
        forall|j: int| 0 <= j < ms.len() ==> (#[trigger] ms[j]).promotion.is_none(),
    ensures
        promo_shaped(ms, p),
{
}

proof fn lemma_leap_plain(g: Grid, from: Position, side: Side, dr: int, dc: int, p: Piece)
    requires
        p.kind != PieceKind::Pawn,
    ensures
        promo_shaped(leap(g, from, side, dr, dc), p),
{
    reveal(leap);
}

proof fn lemma_eight_plain(ls: Seq<Seq<ChessMove>>, p: Piece)
    requires
        ls.len() == 8,
        forall|i: int| 0 <= i < 8 ==> promo_shaped(#[trigger] ls[i], p),
    ensures
        promo_shaped(ls[0] + ls[1] + ls[2] + ls[3] + ls[4] + ls[5] + ls[6] + ls[7], p),
{
    assert(promo_shaped(ls[0], p));
    assert(promo_shaped(ls[1], p));
    assert(promo_shaped(ls[2], p));
    assert(promo_shaped(ls[3], p));
    assert(promo_shaped(ls[4], p));
    assert(promo_shaped(ls[5], p));
    assert(promo_shaped(ls[6], p));
    assert(promo_shaped(ls[7], p));
    lemma_promo_add(ls[0], ls[1], p);
    lemma_promo_add(ls[0] + ls[1], ls[2], p);
    lemma_promo_add(ls[0] + ls[1] + ls[2], ls[3], p);
    lemma_promo_add(ls[0] + ls[1] + ls[2] + ls[3], ls[4], p);
    lemma_promo_add(ls[0] + ls[1] + ls[2] + ls[3] + ls[4], ls[5], p);
    lemma_promo_add(ls[0] + ls[1] + ls[2] + ls[3] + ls[4] + ls[5], ls[6], p);
    lemma_promo_add(ls[0] + ls[1] + ls[2] + ls[3] + ls[4] + ls[5] + ls[6], ls[7], p);
}

proof fn lemma_leaps_plain(g: Grid, from: Position, side: Side, p: Piece)
    requires
        p.kind != PieceKind::Pawn,
    ensures
        promo_shaped(knight_moves(g, from, side), p),
        promo_shaped(king_steps(g, from, side), p),
{
    let ks = seq![
        leap(g, from, side, -2, -1),
        leap(g, from, side, -2, 1),
        leap(g, from, side, -1, -2),
        leap(g, from, side, -1, 2),
        leap(g, from, side, 1, -2),
        leap(g, from, side, 1, 2),
        leap(g, from, side, 2, -1),
        leap(g, from, side, 2, 1),
    ];
    lemma_leap_plain(g, from, side, -2, -1, p);
    lemma_leap_plain(g, from, side, -2, 1, p);
    lemma_leap_plain(g, from, side, -1, -2, p);
    lemma_leap_plain(g, from, side, -1, 2, p);
    lemma_leap_plain(g, from, side, 1, -2, p);
    lemma_leap_plain(g, from, side, 1, 2, p);
    lemma_leap_plain(g, from, side, 2, -1, p);
    lemma_leap_plain(g, from, side, 2, 1, p);
    lemma_eight_plain(ks, p);
    let qs = seq![
        leap(g, from, side, -1, -1),
        leap(g, from, side, -1, 0),
        leap(g, from, side, -1, 1),
        leap(g, from, side, 0, -1),
        leap(g, from, side, 0, 1),
        leap(g, from, side, 1, -1),
        leap(g, from, side, 1, 0),
        leap(g, from, side, 1, 1),
    ];
    lemma_leap_plain(g, from, side, -1, -1, p);
    lemma_leap_plain(g, from, side, -1, 0, p);
    lemma_leap_plain(g, from, side, -1, 1, p);
    lemma_leap_plain(g, from, side, 0, -1, p);
    lemma_leap_plain(g, from, side, 0, 1, p);
    lemma_leap_plain(g, from, side, 1, -1, p);
    lemma_leap_plain(g, from, side, 1, 0, p);
    lemma_leap_plain(g, from, side, 1, 1, p);
    lemma_eight_plain(qs, p);
}

proof fn lemma_pseudo_promo(
    g: Grid,
    cr: CastleRights,
    ep: Option<Position>,
    turn: int,
    from: Position,
    p: Piece,
)
    requires
        from.row < 8,
        from.col < 8,
    ensures
        promo_shaped(pseudo_moves(g, cr, ep, turn, from, p), p),
{
    let side = p.side;
    let r = from.row as int;
    let c = from.col as int;
    if p.kind == PieceKind::Pawn {
        let a = pawn_pushes(g, from, side);
        let b1 = pawn_capture(g, ep, from, side, -1);
        let b2 = pawn_capture(g, ep, from, side, 1);
        assert(promo_shaped(a, p));
        assert(promo_shaped(b1, p));
        assert(promo_shaped(b2, p));
        lemma_promo_add(a, b1, p);
        lemma_promo_add(a + b1, b2, p);
    } else {
        lemma_slide_plain(g, from, side, r - 1, c - 1, -1, -1, 8);
        lemma_slide_plain(g, from, side, r - 1, c + 1, -1, 1, 8);
        lemma_slide_plain(g, from, side, r + 1, c - 1, 1, -1, 8);
        lemma_slide_plain(g, from, side, r + 1, c + 1, 1, 1, 8);
        lemma_slide_plain(g, from, side, r - 1, c, -1, 0, 8);
        lemma_slide_plain(g, from, side, r + 1, c, 1, 0, 8);
        lemma_slide_plain(g, from, side, r, c - 1, 0, -1, 8);
        lemma_slide_plain(g, from, side, r, c + 1, 0, 1, 8);
        let d = seq![
            ray(g, from, side, -1, -1),
            ray(g, from, side, -1, 1),
            ray(g, from, side, 1, -1),
            ray(g, from, side, 1, 1),
            ray(g, from, side, -1, 0),
            ray(g, from, side, 1, 0),
            ray(g, from, side, 0, -1),
            ray(g, from, side, 0, 1),
        ];
        lemma_plain_promo(d[0], p);
        lemma_plain_promo(d[1], p);
        lemma_plain_promo(d[2], p);
        lemma_plain_promo(d[3], p);
        lemma_plain_promo(d[4], p);
        lemma_plain_promo(d[5], p);
        lemma_plain_promo(d[6], p);
        lemma_plain_promo(d[7], p);
        lemma_promo_add(d[0], d[1], p);
        lemma_promo_add(d[0] + d[1], d[2], p);
        lemma_promo_add(d[0] + d[1] + d[2], d[3], p);
        lemma_promo_add(d[4], d[5], p);
        lemma_promo_add(d[4] + d[5], d[6], p);
        lemma_promo_add(d[4] + d[5] + d[6], d[7], p);
        lemma_promo_add(diagonal_moves(g, from, side), straight_moves(g, from, side), p);
        lemma_leaps_plain(g, from, side, p);
        let cs = castles(g, cr, turn, from, side);
        assert(promo_shaped(cs, p));
        lemma_promo_add(king_steps(g, from, side), cs, p);
    }
}

proof fn lemma_square_in_all(
    g: Grid,
    cr: CastleRights,
    ep: Option<Position>,
    turn: int,
    side: Side,
    i: int,
    n: int,
    x: ChessMove,
)
    requires
        0 <= i < n <= 64,
        square_moves(g, cr, ep, turn, side, i).contains(x),
    ensures
        all_pseudo(g, cr, ep, turn, side, n).contains(x),
    decreases n,
{
    let prev = all_pseudo(g, cr, ep, turn, side, n - 1);
    let cur = square_moves(g, cr, ep, turn, side, n - 1);
    if i == n - 1 {
        let k = choose|k: int| 0 <= k < cur.len() && cur[k] == x;
        assert((prev + cur)[prev.len() + k] == x);
    } else {
        lemma_square_in_all(g, cr, ep, turn, side, i, n - 1, x);
        let k = choose|k: int| 0 <= k < prev.len() && prev[k] == x;
        assert((prev + cur)[k] == x);
    }
}

/// Server authority: a move passes validation for the side to move exactly when it
/// is one of the legal moves generated for that position.
pub proof fn law_validate_iff_legal(s: &ChessState, mv: ChessMove)
    requires
        s.wf(),
    ensures
        rejection_of(s, turn_side(s.current_turn as int), mv).is_none() <==> legal_moves_of(
            s,
        ).contains(mv),
{
    let g = grid(s.board);
    let cr = s.castle_rights;
    let ep = s.en_passant_target;
    let turn = s.current_turn as int;
    let side = turn_side(turn);
    let all = all_pseudo(g, cr, ep, turn, side, 64);
    let pred = keep_pred(g, ep, side);
    lemma_all_pseudo_own(g, cr, ep, turn, side, 64);
    if legal_moves_of(s).contains(mv) {
        let f = all.filter(pred);
        let k = choose|k: int| 0 <= k < f.len() && f[k] == mv;
        all.lemma_filter_pred(pred, k);
        all.lemma_filter_contains_rev(pred, mv);
        let j = choose|j: int| 0 <= j < all.len() && all[j] == mv;
        assert(pseudo_of_own(g, cr, ep, turn, side, all[j]));
        let p = g[mv.from.row as int][mv.from.col as int]->Some_0;
        lemma_pseudo_promo(g, cr, ep, turn, mv.from, p);
        let pm = pseudo_moves(g, cr, ep, turn, mv.from, p);
        let q = choose|q: int| 0 <= q < pm.len() && pm[q] == mv;
        assert(promo_shape(pm[q], p));
        assert(rejection_of(s, side, mv).is_none());
    }
    if rejection_of(s, side, mv).is_none() {
        let i = mv.from.row as int * 8 + mv.from.col as int;
        assert(i / 8 == mv.from.row as int && i % 8 == mv.from.col as int);
        assert(pos_of(i / 8, i % 8) == mv.from);
        assert(square_moves(g, cr, ep, turn, side, i) == pseudo_moves(
            g,
            cr,
            ep,
            turn,
            mv.from,
            g[mv.from.row as int][mv.from.col as int]->Some_0,
        ));
        lemma_square_in_all(g, cr, ep, turn, side, i, 64, mv);
        let j = choose|j: int| 0 <= j < all.len() && all[j] == mv;
        assert(pred(all[j]));
        all.lemma_filter_contains(pred, j);
    }
}


// ---------------------------------------------------------------------------
// Bot
// ---------------------------------------------------------------------------

/// Every legal move can be played on its position: it stays on the board and
/// starts on a piece.
pub proof fn lemma_legal_applicable(s: &ChessState, m: ChessMove)
    requires
        s.wf(),
        legal_moves_of(s).contains(m),
    ensures
        move_in_bounds(m),
        s.board[m.from.row as int][m.from.col as int].is_some(),
{
    let g = grid(s.board);
    let side = turn_side(s.current_turn as int);
    let all = all_pseudo(g, s.castle_rights, s.en_passant_target, s.current_turn as int, side, 64);
    lemma_all_pseudo_own(g, s.castle_rights, s.en_passant_target, s.current_turn as int, side, 64);
    all.lemma_filter_contains_rev(keep_pred(g, s.en_passant_target, side), m);
    let j = choose|j: int| 0 <= j < all.len() && all[j] == m;
    assert(pseudo_of_own(g, s.castle_rights, s.en_passant_target, s.current_turn as int, side, all[j]));
}

/// Material value of a piece kind.
pub open spec fn kind_value(k: PieceKind) -> int {
    match k {
        PieceKind::Pawn => 100,
        PieceKind::Knight => 300,
        PieceKind::Bishop => 300,
        PieceKind::Rook => 500,
        PieceKind::Queen => 900,
        PieceKind::King => 100_000,
    }
}

pub fn piece_value(kind: PieceKind) -> (v: i32)
    ensures
        v == kind_value(kind),
{
    match kind {
        PieceKind::Pawn => 100,
        PieceKind::Knight => 300,
        PieceKind::Bishop => 300,
        PieceKind::Rook => 500,
        PieceKind::Queen => 900,
        PieceKind::King => 100_000,
    }
}

pub open spec fn signed_value(sq: Option<Piece>) -> int {
    match sq {
        Some(p) => if p.side == Side::White {
            kind_value(p.kind)
        } else {
            -kind_value(p.kind)
        },
        None => 0,
    }
}

pub open spec fn row_material(g: Grid, r: int, n: nat) -> int
    decreases n,
{
    if n == 0 {
        0
    } else {
        row_material(g, r, (n - 1) as nat) + signed_value(g[r][n - 1])
    }
}

/// Material balance of the first `n` rows, White positive.
pub open spec fn material(g: Grid, n: nat) -> int
    decreases n,
{
    if n == 0 {
        0
    } else {
        material(g, (n - 1) as nat) + row_material(g, n - 1, 8)
    }
}

/// Material evaluation from White's point of view.
pub fn evaluate_chess(state: &ChessState) -> (v: i32)
    ensures
        v == material(grid(state.board), 8),
        -6_400_000 <= v <= 6_400_000,
{
    let ghost g = grid(state.board);
    let mut score: i32 = 0;
    let mut r: usize = 0;
    while r < 8
        invariant
            g == grid(state.board),
            r <= 8,
            score == material(g, r as nat),
            -800_000 * (r as int) <= score <= 800_000 * (r as int),
        decreases 8 - r,
    {
        let mut row: i32 = 0;
        let mut c: usize = 0;
        while c < 8
            invariant
                g == grid(state.board),
                r < 8,
                c <= 8,
                row == row_material(g, r as int, c as nat),
                -100_000 * (c as int) <= row <= 100_000 * (c as int),
                score == material(g, r as nat),
                -800_000 * (r as int) <= score <= 800_000 * (r as int),
            decreases 8 - c,
        {
            let sq = state.board[r][c];
            assert(sq == g[r as int][c as int]);
            match sq {
                Some(p) => {
                    let val = piece_value(p.kind);
                    match p.side {
                        Side::White => {
                            row = row + val;
                        },
                        Side::Black => {
                            row = row - val;
                        },
                    }
                },
                None => {},
            }
            c += 1;
        }
        assert(-800_000 <= row <= 800_000);
        assert(-800_000 * (r as int) <= score <= 800_000 * (r as int));
        score = score + row;
        r += 1;
    }
    score
}

/// Counters leave room for `depth` more moves.
pub open spec fn room_for(s: &ChessState, depth: int) -> bool {
    &&& s.wf()
    &&& s.move_count + depth < u32::MAX
    &&& s.halfmove_clock + depth < u32::MAX
}

/// The search score of a finished game with `depth` plies left: a win is
/// worth 100000 plus the depth to its winner's side (White positive), a
/// draw 0.
pub open spec fn mate_score(o: GameOutcome, players: [PlayerId; 2], depth: int) -> int {
    match o {
        GameOutcome::Win(pid) => if pid == players[0] {
            100_000 + depth
        } else {
            -(100_000 + depth)
        },
        GameOutcome::Draw => 0,
    }
}

/// `x` brought into the window [lo, hi].
pub open spec fn clamp(x: int, lo: int, hi: int) -> int {
    if x < lo {
        lo
    } else if x > hi {
        hi
    } else {
        x
    }
}

/// What the rules read of a state: board, players, turn, counters, castling
/// rights, en-passant target and position history.
pub type PositionView = (Grid, [PlayerId; 2], usize, u32, u32, CastleRights, Option<Position>, Seq<u64>);

pub open spec fn position_view(s: ChessState) -> PositionView {
    (
        grid(s.board),
        s.players,
        s.current_turn,
        s.move_count,
        s.halfmove_clock,
        s.castle_rights,
        s.en_passant_target,
        s.position_history@,
    )
}

/// Two states that agree on everything the rules read.
pub open spec fn same_position(a: ChessState, b: ChessState) -> bool {
    position_view(a) == position_view(b)
}

/// A position reached by playing `m` for the side to move from a state
/// whose view is `v`.
pub open spec fn after_view(v: PositionView, m: ChessMove) -> ChessState {
    choose|t: ChessState| reached_by(v, m, t)
}

/// `t` is what playing `m` makes of some state whose view is `v`.
pub open spec fn reached_by(v: PositionView, m: ChessMove, t: ChessState) -> bool {
    exists|u: ChessState| position_view(u) == v && #[trigger] applied(&u, turn_side(u.current_turn as int), m, &t)
}

/// The position after the side to move plays `m` in `s`.
pub open spec fn after(s: ChessState, m: ChessMove) -> ChessState {
    after_view(position_view(s), m)
}

/// The minimax value of `s` searched `depth` plies deep, the maximising side
/// being White when `maximizing` holds: a finished game scores
/// `mate_score`, a leaf its material balance, and an inner position the best
/// of its children's values for the side to choose.
pub open spec fn chess_value(s: ChessState, depth: nat, maximizing: bool) -> int
    decreases depth, 1nat, 0nat,
{
    match chess_outcome(&s) {
        Some(o) => mate_score(o, s.players, depth as int),
        None => if depth == 0 {
            material(grid(s.board), 8)
        } else if legal_moves_of(&s).len() == 0 {
            if king_in_check(grid(s.board), turn_side(s.current_turn as int)) {
                if s.current_turn == 0 {
                    -(100_000 + depth)
                } else {
                    100_000 + depth as int
                }
            } else {
                0
            }
        } else {
            best_of(s, legal_moves_of(&s).len(), depth, maximizing)
        },
    }
}

/// The best value, for the side choosing at `s`, among its first `k` legal
/// moves (at least one), each searched `depth - 1` plies deeper.
pub open spec fn best_of(s: ChessState, k: nat, depth: nat, maximizing: bool) -> int
    decreases depth, 0nat, k,
{
    if depth == 0 {
        0
    } else {
        let v = chess_value(after(s, legal_moves_of(&s)[k - 1]), (depth - 1) as nat, !maximizing);
        if k <= 1 {
            v
        } else {
            let prev = best_of(s, (k - 1) as nat, depth, maximizing);
            if maximizing {
                if v > prev {
                    v
                } else {
                    prev
                }
            } else {
                if v < prev {
                    v
                } else {
                    prev
                }
            }
        }
    }
}

/// Playing the same move from positions that agree gives positions that
/// agree.
proof fn lemma_applied_same(s: ChessState, u: ChessState, m: ChessMove, a: ChessState, b: ChessState)
    requires
        same_position(s, u),
        applied(&s, turn_side(s.current_turn as int), m, &a),
        applied(&u, turn_side(u.current_turn as int), m, &b),
    ensures
        same_position(a, b),
{
}

/// A state reached by playing `m` agrees with `after(s, m)`.
proof fn lemma_after_is(s: ChessState, m: ChessMove, t: ChessState)
    requires
        applied(&s, turn_side(s.current_turn as int), m, &t),
    ensures
        same_position(after(s, m), t),
{
    assert(reached_by(position_view(s), m, t));
    let a = after(s, m);
    let u = choose|u: ChessState| position_view(u) == position_view(s) && #[trigger] applied(&u, turn_side(u.current_turn as int), m, &a);
    lemma_applied_same(u, s, m, a, t);
}

/// Positions that agree have the same value.
proof fn lemma_value_same(a: ChessState, b: ChessState, depth: nat, maximizing: bool)
    requires
        same_position(a, b),
    ensures
        chess_value(a, depth, maximizing) == chess_value(b, depth, maximizing),
    decreases depth, 1nat, 0nat,
{
    assert(chess_outcome(&a) == chess_outcome(&b));
    assert(legal_moves_of(&a) == legal_moves_of(&b));
    if chess_outcome(&a) is None && depth > 0 && legal_moves_of(&a).len() > 0 {
        lemma_best_same(a, b, legal_moves_of(&a).len(), depth, maximizing);
    }
}

proof fn lemma_best_same(a: ChessState, b: ChessState, k: nat, depth: nat, maximizing: bool)
    requires
        same_position(a, b),
    ensures
        best_of(a, k, depth, maximizing) == best_of(b, k, depth, maximizing),
    decreases depth, 0nat, k,
{
    if depth > 0 {
        assert(legal_moves_of(&a) == legal_moves_of(&b));
        if k > 1 {
            lemma_best_same(a, b, (k - 1) as nat, depth, maximizing);
        }
    }
}

/// Looking at more moves never makes the best value worse for the chooser.
proof fn lemma_best_monotone(s: ChessState, k: nat, n: nat, depth: nat, maximizing: bool)
    requires
        1 <= k <= n,
    ensures
        maximizing ==> best_of(s, n, depth, maximizing) >= best_of(s, k, depth, maximizing),
        !maximizing ==> best_of(s, n, depth, maximizing) <= best_of(s, k, depth, maximizing),
    decreases n,
{
    if n > k {
        lemma_best_monotone(s, k, (n - 1) as nat, depth, maximizing);
    }
}

/// Alpha-beta search to `depth` plies (White maximises); mates score 100000
/// plus the remaining depth, stalemates 0.
fn chess_alpha_beta(state: &ChessState, depth: u8, alpha: i32, beta: i32, maximizing: bool) -> (v: i32)
    requires
        room_for(state, depth as int),
        depth <= 100,
        alpha < beta,
    ensures
        -6_400_000 <= v <= 6_400_000,
        chess_outcome(state) matches Some(o) ==> v == mate_score(o, state.players, depth as int),
        chess_outcome(state) is None && depth == 0 ==> v == material(grid(state.board), 8),
        clamp(v as int, alpha as int, beta as int) == clamp(
            chess_value(*state, depth as nat, maximizing),
            alpha as int,
            beta as int,
        ),
    decreases depth,
{
    match Chess::is_terminal(state) {
        Some(outcome) => {
            return match outcome {
                GameOutcome::Win(pid) => if pid == state.players[0] {
                    100_000 + depth as i32
                } else {
                    -(100_000 + depth as i32)
                },
                GameOutcome::Draw => 0,
            };
        },
        None => {},
    }
    if depth == 0 {
        return evaluate_chess(state);
    }
    let moves = legal_moves(state);
    if moves.len() == 0 {
        let side = side_for_turn(state.current_turn);
        return if in_check(state, side) {
            if state.current_turn == 0 {
                -(100_000 + depth as i32)
            } else {
                100_000 + depth as i32
            }
        } else {
            0
        };
    }
    let ghost a0 = alpha as int;
    let ghost b0 = beta as int;
    let ghost n = moves@.len();
    let ghost d = depth as nat;
    let mut alpha = alpha;
    let mut beta = beta;
    let mut value: i32 = if maximizing {
        i32::MIN
    } else {
        i32::MAX
    };
    let mut i: usize = 0;
    while i < moves.len()
        invariant_except_break
            alpha < beta,
            i > 0 && maximizing ==> {
                &&& alpha as int == (if value as int > a0 { value as int } else { a0 })
                &&& best_of(*state, i as nat, d, maximizing) < b0
                &&& (if best_of(*state, i as nat, d, maximizing) > a0 {
                    best_of(*state, i as nat, d, maximizing)
                } else {
                    a0
                }) == alpha as int
            },
            i > 0 && !maximizing ==> {
                &&& beta as int == (if (value as int) < b0 { value as int } else { b0 })
                &&& best_of(*state, i as nat, d, maximizing) > a0
                &&& (if best_of(*state, i as nat, d, maximizing) < b0 {
                    best_of(*state, i as nat, d, maximizing)
                } else {
                    b0
                }) == beta as int
            },
        invariant
            room_for(state, depth as int),
            1 <= depth <= 100,
            d == depth as nat,
            moves@ == legal_moves_of(state),
            n == moves@.len(),
            chess_outcome(state) is None,
            i <= moves@.len(),
            moves@.len() > 0,
            i > 0 ==> -6_400_000 <= value <= 6_400_000,
            i == 0 ==> value == if maximizing {
                i32::MIN
            } else {
                i32::MAX
            },
            maximizing ==> beta == b0,
            !maximizing ==> alpha == a0,
            i == 0 ==> alpha == a0 && beta == b0,
        ensures
            -6_400_000 <= value <= 6_400_000,
            clamp(value as int, a0, b0) == clamp(best_of(*state, n, d, maximizing), a0, b0),
        decreases moves@.len() - i,
    {
        proof {
            assert(legal_moves_of(state).contains(moves@[i as int]));
            lemma_legal_applicable(state, moves@[i as int]);
        }
        let next = clone_and_apply_pseudo(state, &moves[i]);
        let score = chess_alpha_beta(&next, depth - 1, alpha, beta, !maximizing);
        let ghost cv = chess_value(next, (d - 1) as nat, !maximizing);
        proof {
            lemma_after_is(*state, moves@[i as int], next);
            lemma_value_same(after(*state, moves@[i as int]), next, (d - 1) as nat, !maximizing);
            assert(best_of(*state, (i + 1) as nat, d, maximizing) == if i == 0 {
                cv
            } else if maximizing {
                if cv > best_of(*state, i as nat, d, maximizing) {
                    cv
                } else {
                    best_of(*state, i as nat, d, maximizing)
                }
            } else {
                if cv < best_of(*state, i as nat, d, maximizing) {
                    cv
                } else {
                    best_of(*state, i as nat, d, maximizing)
                }
            });
        }
        if maximizing {
            if score > value || i == 0 {
                value = score;
            }
            if score > alpha {
                alpha = score;
            }
        } else {
            if score < value || i == 0 {
                value = score;
            }
            if score < beta {
                beta = score;
            }
        }
        i += 1;
        if alpha >= beta {
            proof {
                lemma_best_monotone(*state, i as nat, n, d, maximizing);
            }
            break;
        }
    }
    value
}

/// A uniformly random legal move, `None` when there is none.
fn bot_random(state: &ChessState) -> (r: Option<ChessMove>)
    requires
        state.wf(),
    ensures
        r is None <==> legal_moves_of(state).len() == 0,
        r matches Some(m) ==> legal_moves_of(state).contains(m),
{
    let moves = legal_moves(state);
    if moves.len() == 0 {
        return None;
    }
    match choose_item(moves.as_slice()) {
        Some(m) => Some(*m),
        None => None,
    }
}

/// The search score of playing `m` in `s`: the minimax value, three plies
/// deep, of the position it leads to (White maximising).
pub open spec fn root_score(s: ChessState, m: ChessMove) -> int {
    chess_value(after(s, m), 3, !(s.current_turn == 0))
}

/// `m` is a legal move of the side to move with the best search score for
/// it (the highest for White, the lowest for Black).
pub open spec fn best_scored(s: ChessState, m: ChessMove) -> bool {
    &&& legal_moves_of(&s).contains(m)
    &&& forall|m2: ChessMove|
        #![trigger legal_moves_of(&s).contains(m2)]
        legal_moves_of(&s).contains(m2) ==> if s.current_turn == 0 {
            root_score(s, m) >= root_score(s, m2)
        } else {
            root_score(s, m) <= root_score(s, m2)
        }
}

/// A best move by four-ply alpha-beta search, picked at random among equally
/// scored moves; `None` when there is no legal move.
fn bot_minimax(state: &ChessState) -> (r: Option<ChessMove>)
    requires
        room_for(state, 5),
    ensures
        r is None <==> legal_moves_of(state).len() == 0,
        r matches Some(m) ==> best_scored(*state, m),
{
    let moves = legal_moves(state);
    if moves.len() == 0 {
        return None;
    }
    let maximizing = state.current_turn == 0;
    let mut scores: Vec<i32> = Vec::new();
    let mut i: usize = 0;
    while i < moves.len()
        invariant
            room_for(state, 5),
            moves@ == legal_moves_of(state),
            maximizing == (state.current_turn == 0),
            i <= moves@.len(),
            scores@.len() == i,
            forall|j: int| 0 <= j < i ==> scores@[j] as int == root_score(*state, #[trigger] moves@[j]),
        decreases moves@.len() - i,
    {
        proof {
            assert(legal_moves_of(state).contains(moves@[i as int]));
            lemma_legal_applicable(state, moves@[i as int]);
        }
        let next = clone_and_apply_pseudo(state, &moves[i]);
        let score = chess_alpha_beta(&next, 3, i32::MIN, i32::MAX, !maximizing);
        proof {
            lemma_after_is(*state, moves@[i as int], next);
            lemma_value_same(after(*state, moves@[i as int]), next, 3, !maximizing);
        }
        scores.push(score);
        i += 1;
    }
    let mut best_score = scores[0];
    let mut bi: usize = 0;
    let mut k: usize = 1;
    while k < scores.len()
        invariant
            scores@.len() == moves@.len(),
            1 <= k <= scores@.len(),
            bi < k,
            scores@[bi as int] == best_score,
            moves@ == legal_moves_of(state),
            forall|q: int| 0 <= q < moves@.len() ==> scores@[q] as int == root_score(*state, #[trigger] moves@[q]),
            forall|j: int|
                0 <= j < k ==> if maximizing {
                    #[trigger] scores@[j] <= best_score
                } else {
                    scores@[j] >= best_score
                },
        decreases scores@.len() - k,
    {
        if (maximizing && scores[k] > best_score) || (!maximizing && scores[k] < best_score) {
            best_score = scores[k];
            bi = k;
        }
        k += 1;
    }
    let mut best_moves: Vec<ChessMove> = Vec::new();
    let mut j: usize = 0;
    while j < moves.len()
        invariant
            scores@.len() == moves@.len(),
            moves@ == legal_moves_of(state),
            j <= moves@.len(),
            bi < moves@.len(),
            scores@[bi as int] == best_score,
            j > bi ==> best_moves@.len() > 0,
            forall|q: int| 0 <= q < moves@.len() ==> scores@[q] as int == root_score(*state, #[trigger] moves@[q]),
            forall|a: int|
                0 <= a < best_moves@.len() ==> legal_moves_of(state).contains(#[trigger] best_moves@[a])
                    && root_score(*state, best_moves@[a]) == best_score as int,
        decreases moves@.len() - j,
    {
        if scores[j] == best_score {
            assert(legal_moves_of(state).contains(moves@[j as int]));
            best_moves.push(moves[j]);
        }
        j += 1;
    }
    proof {
        assert forall|m: ChessMove|
            legal_moves_of(state).contains(m) && root_score(*state, m) == best_score as int implies best_scored(
            *state,
            m,
        ) by {
            assert forall|m2: ChessMove|
                #![trigger legal_moves_of(state).contains(m2)]
                legal_moves_of(state).contains(m2) implies if state.current_turn == 0 {
                root_score(*state, m) >= root_score(*state, m2)
            } else {
                root_score(*state, m) <= root_score(*state, m2)
            } by {
                let q = choose|q: int| 0 <= q < moves@.len() && moves@[q] == m2;
                assert(scores@[q] as int == root_score(*state, moves@[q]));
            }
        }
    }
    if best_moves.len() == 1 {
        return Some(best_moves[0]);
    }
    match choose_item(best_moves.as_slice()) {
        Some(m) => Some(*m),
        None => {
            assert(false);
            None
        },
    }
}

/// The bot's move: random (easy) or searched (hard); `None` exactly when the
/// side to move has no legal move, otherwise a legal move, and for the hard
/// bot one with the best search score (`best_scored`).
pub fn bot_move(state: &ChessState, difficulty: Difficulty) -> (r: Option<ChessMove>)
    requires
        room_for(state, 5),
    ensures
        r is None <==> legal_moves_of(state).len() == 0,
        r matches Some(m) ==> legal_moves_of(state).contains(m),
        difficulty == Difficulty::Hard ==> (r matches Some(m) ==> best_scored(*state, m)),
{
    match difficulty {
        Difficulty::Easy => bot_random(state),
        Difficulty::Hard => bot_minimax(state),
    }
}

/// The knight from b1 to c3, a White opening move.
pub open spec fn knight_b1_c3() -> ChessMove {
    ChessMove { from: Position { row: 0, col: 1 }, to: Position { row: 2, col: 2 }, promotion: None }
}

/// In the starting position, White to move, the knight may go from b1 to
/// c3: the side to move has a legal move.
pub proof fn lemma_start_has_move(s: &ChessState)
    requires
        s.current_turn == 0,
        s.en_passant_target.is_none(),
        forall|r: int, c: int| 0 <= r < 8 && 0 <= c < 8 ==> #[trigger] s.board[r][c] == start_square(r, c),
    ensures
        rejection_of(s, Side::White, knight_b1_c3()).is_none(),
        legal_moves_of(s).contains(knight_b1_c3()),
{
    let g = grid(s.board);
    let mv = knight_b1_c3();
    assert forall|r: int, c: int| 0 <= r < 8 && 0 <= c < 8 implies #[trigger] g[r][c] == start_square(r, c) by {
        assert(s.board[r][c] == start_square(r, c));
    }
    let knight = Piece { kind: PieceKind::Knight, side: Side::White };
    assert(g[0][1] == Some(knight));
    assert(g[2][2].is_none());
    assert(free_or_enemy(g, 2, 2, Side::White));
    assert(plain(mv.from, 2, 2) == mv);
    assert(leap(g, mv.from, Side::White, 2, 1) =~= seq![mv]) by {
        reveal(leap);
    }
    assert(knight_moves(g, mv.from, Side::White).contains(mv)) by {
        let km = knight_moves(g, mv.from, Side::White);
        let pre = leap(g, mv.from, Side::White, -2, -1) + leap(g, mv.from, Side::White, -2, 1) + leap(
            g,
            mv.from,
            Side::White,
            -1,
            -2,
        ) + leap(g, mv.from, Side::White, -1, 2) + leap(g, mv.from, Side::White, 1, -2) + leap(
            g,
            mv.from,
            Side::White,
            1,
            2,
        ) + leap(g, mv.from, Side::White, 2, -1);
        assert(km == pre + seq![mv]);
        assert(km[pre.len() as int] == mv);
    }
    let g2 = board_after(g, s.en_passant_target, Side::White, mv);
    assert(g2 == set_sq(set_sq(g, 0, 1, None), 2, 2, Some(knight)));
    assert forall|r: int, c: int| 0 <= r < 3 && 0 <= c < 8 implies (#[trigger] g2[r][c] matches Some(p) ==> p.side
        == Side::White) by {
        assert(g[r][c] == start_square(r, c));
    }
    assert(g2[0][4] == Some(Piece { kind: PieceKind::King, side: Side::White })) by {
        assert(g[0][4] == start_square(0, 4));
    }
    assert(first_king_from(g2, Side::White, 0) == Some(4int)) by {
        reveal_with_fuel(first_king_from, 6);
        assert(g[0][0] == start_square(0, 0));
        assert(g[0][2] == start_square(0, 2));
        assert(g[0][3] == start_square(0, 3));
    }
    assert(!attacked(g2, 0, 4, Side::Black)) by {
        assert(g2[0][3] matches Some(p) && p.side == Side::White);
        assert(g2[0][5] matches Some(p) && p.side == Side::White);
        assert(g2[1][3] matches Some(p) && p.side == Side::White);
        assert(g2[1][4] matches Some(p) && p.side == Side::White);
        assert(g2[1][5] matches Some(p) && p.side == Side::White);
        assert(g2[1][2] matches Some(p) && p.side == Side::White);
        assert(g2[1][6] matches Some(p) && p.side == Side::White);
        assert(g2[2][3] is None);
        assert(g2[2][5] is None);
    }
    assert(!king_in_check(g2, Side::White));
    assert(rejection_of(s, Side::White, mv).is_none());
    law_validate_iff_legal(s, mv);
}

// ---------------------------------------------------------------------------
// The game goes on after White's first move
// ---------------------------------------------------------------------------

/// Every move of `ms` lands on one of the first four rows.
pub open spec fn all_low(ms: Seq<ChessMove>) -> bool {
    forall|i: int| 0 <= i < ms.len() ==> (#[trigger] ms[i]).to.row <= 3
}

proof fn lemma_low_concat(a: Seq<ChessMove>, b: Seq<ChessMove>)
    requires
        all_low(a),
        all_low(b),
    ensures
        all_low(a + b),
{
    assert forall|i: int| 0 <= i < (a + b).len() implies (#[trigger] (a + b)[i]).to.row <= 3 by {
        if i < a.len() {
            assert((a + b)[i] == a[i]);
        } else {
            assert((a + b)[i] == b[i - a.len()]);
        }
    }
}

/// A step or leap from a square of the first two rows, at most two rows up.
proof fn lemma_leap_low(b: Grid, from: Position, side: Side, dr: int, dc: int)
    requires
        from.row <= 1,
        dr <= 2,
    ensures
        all_low(leap(b, from, side, dr, dc)),
{
    reveal(leap);
}

/// On the starting board every square next to one of the first row holds a
/// White piece, so no slide from there goes anywhere.
proof fn lemma_ray_blocked(g: Grid, from: Position, dr: int, dc: int)
    requires
        forall|r: int, c: int| on_board(r, c) ==> #[trigger] g[r][c] == start_square(r, c),
        from.row == 0,
        from.col < 8,
        -1 <= dr <= 1,
        -1 <= dc <= 1,
    ensures
        ray(g, from, Side::White, dr, dc) == Seq::<ChessMove>::empty(),
{
    let r = from.row as int + dr;
    let c = from.col as int + dc;
    if on_board(r, c) {
        assert(g[r][c] == start_square(r, c));
        if r == 0 && c == from.col as int {
        }
    }
}

/// Every move White may make from the starting position lands on one of the
/// first four rows.
proof fn lemma_opening_lands_low(g: Grid, cr: CastleRights, ep: Option<Position>, from: Position, p: Piece)
    requires
        forall|r: int, c: int| on_board(r, c) ==> #[trigger] g[r][c] == start_square(r, c),
        from.row < 8,
        from.col < 8,
        g[from.row as int][from.col as int] == Some(p),
        p.side == Side::White,
    ensures
        all_low(pseudo_moves(g, cr, ep, 0, from, p)),
{
    let fr = from.row as int;
    let fc = from.col as int;
    assert(g[fr][fc] == start_square(fr, fc));
    assert(fr <= 1);
    let side = Side::White;
    match p.kind {
        PieceKind::Pawn => {
            let pushes = pawn_pushes(g, from, side);
            assert(all_low(pushes)) by {
                if on_board(fr + 1, fc) && g[fr + 1][fc].is_none() {
                    assert(fr + 1 != last_row(side));
                }
            }
            let c1 = pawn_capture(g, ep, from, side, -1);
            let c2 = pawn_capture(g, ep, from, side, 1);
            assert(all_low(c1));
            assert(all_low(c2));
            lemma_low_concat(pushes, c1);
            lemma_low_concat(pushes + c1, c2);
        },
        PieceKind::Knight => {
            lemma_leap_low(g, from, side, -2, -1);
            lemma_leap_low(g, from, side, -2, 1);
            lemma_leap_low(g, from, side, -1, -2);
            lemma_leap_low(g, from, side, -1, 2);
            lemma_leap_low(g, from, side, 1, -2);
            lemma_leap_low(g, from, side, 1, 2);
            lemma_leap_low(g, from, side, 2, -1);
            lemma_leap_low(g, from, side, 2, 1);
            let l1 = leap(g, from, side, -2, -1);
            let l2 = leap(g, from, side, -2, 1);
            let l3 = leap(g, from, side, -1, -2);
            let l4 = leap(g, from, side, -1, 2);
            let l5 = leap(g, from, side, 1, -2);
            let l6 = leap(g, from, side, 1, 2);
            let l7 = leap(g, from, side, 2, -1);
            let l8 = leap(g, from, side, 2, 1);
            lemma_low_concat(l1, l2);
            lemma_low_concat(l1 + l2, l3);
            lemma_low_concat(l1 + l2 + l3, l4);
            lemma_low_concat(l1 + l2 + l3 + l4, l5);
            lemma_low_concat(l1 + l2 + l3 + l4 + l5, l6);
            lemma_low_concat(l1 + l2 + l3 + l4 + l5 + l6, l7);
            lemma_low_concat(l1 + l2 + l3 + l4 + l5 + l6 + l7, l8);
        },
        PieceKind::King => {
            lemma_leap_low(g, from, side, -1, -1);
            lemma_leap_low(g, from, side, -1, 0);
            lemma_leap_low(g, from, side, -1, 1);
            lemma_leap_low(g, from, side, 0, -1);
            lemma_leap_low(g, from, side, 0, 1);
            lemma_leap_low(g, from, side, 1, -1);
            lemma_leap_low(g, from, side, 1, 0);
            lemma_leap_low(g, from, side, 1, 1);
            let l1 = leap(g, from, side, -1, -1);
            let l2 = leap(g, from, side, -1, 0);
            let l3 = leap(g, from, side, -1, 1);
            let l4 = leap(g, from, side, 0, -1);
            let l5 = leap(g, from, side, 0, 1);
            let l6 = leap(g, from, side, 1, -1);
            let l7 = leap(g, from, side, 1, 0);
            let l8 = leap(g, from, side, 1, 1);
            lemma_low_concat(l1, l2);
            lemma_low_concat(l1 + l2, l3);
            lemma_low_concat(l1 + l2 + l3, l4);
            lemma_low_concat(l1 + l2 + l3 + l4, l5);
            lemma_low_concat(l1 + l2 + l3 + l4 + l5, l6);
            lemma_low_concat(l1 + l2 + l3 + l4 + l5 + l6, l7);
            lemma_low_concat(l1 + l2 + l3 + l4 + l5 + l6 + l7, l8);
            let cs = castles(g, cr, 0, from, side);
            assert(all_low(cs));
            lemma_low_concat(king_steps(g, from, side), cs);
        },
        _ => {
            assert(fr == 0);
            lemma_ray_blocked(g, from, -1, -1);
            lemma_ray_blocked(g, from, -1, 1);
            lemma_ray_blocked(g, from, 1, -1);
            lemma_ray_blocked(g, from, 1, 1);
            lemma_ray_blocked(g, from, -1, 0);
            lemma_ray_blocked(g, from, 1, 0);
            lemma_ray_blocked(g, from, 0, -1);
            lemma_ray_blocked(g, from, 0, 1);
            assert(diagonal_moves(g, from, side) =~= Seq::<ChessMove>::empty());
            assert(straight_moves(g, from, side) =~= Seq::<ChessMove>::empty());
        },
    }
}

proof fn lemma_first_king_at(b: Grid, side: Side, i: int, j: int)
    requires
        0 <= i <= j < 64,
        forall|k: int| i <= k < j ==> !holds(b, #[trigger] (k / 8), k % 8, side, PieceKind::King),
        holds(b, j / 8, j % 8, side, PieceKind::King),
    ensures
        first_king_from(b, side, i) == Some(j),
    decreases j - i,
{
    if i < j {
        assert(!holds(b, i / 8, i % 8, side, PieceKind::King));
        lemma_first_king_at(b, side, i + 1, j);
    }
}

proof fn lemma_side_pieces_mono(g: Grid, side: Side, m: int, n: int)
    requires
        0 <= m <= n,
    ensures
        side_pieces(g, side, n).len() >= side_pieces(g, side, m).len(),
    decreases n - m,
{
    if m < n {
        lemma_side_pieces_mono(g, side, m, n - 1);
    }
}

/// After any first move of White the game goes on: the move lands on one
/// of the first four rows, so Black's knight can still go from b8 to a6
/// without exposing its king, and no draw rule applies yet.
pub proof fn lemma_opening_goes_on(s0: &ChessState, m: ChessMove, s1: &ChessState)
    requires
        forall|r: int, c: int| 0 <= r < 8 && 0 <= c < 8 ==> #[trigger] s0.board[r][c] == start_square(r, c),
        s0.current_turn == 0,
        s0.halfmove_clock == 0,
        s0.en_passant_target.is_none(),
        s0.position_history@.len() == 1,
        rejection_of(s0, Side::White, m).is_none(),
        applied(s0, Side::White, m, s1),
    ensures
        chess_outcome(s1) is None,
{
    let g0 = grid(s0.board);
    assert forall|r: int, c: int| on_board(r, c) implies #[trigger] g0[r][c] == start_square(r, c) by {
        assert(s0.board[r][c] == start_square(r, c));
    }
    let fr = m.from.row as int;
    let fc = m.from.col as int;
    let piece = g0[fr][fc]->Some_0;
    assert(g0[fr][fc] == start_square(fr, fc));
    assert(fr <= 1);
    lemma_opening_lands_low(g0, s0.castle_rights, s0.en_passant_target, m.from, piece);
    assert(pseudo_moves(g0, s0.castle_rights, s0.en_passant_target, 0, m.from, piece).contains(m));
    let k = choose|k: int|
        0 <= k < pseudo_moves(g0, s0.castle_rights, s0.en_passant_target, 0, m.from, piece).len()
            && pseudo_moves(g0, s0.castle_rights, s0.en_passant_target, 0, m.from, piece)[k] == m;
    assert(m.to.row <= 3);
    let g1 = grid(s1.board);
    assert(g1 == board_after(g0, None, Side::White, m));
    // Rows 4 to 7 are as at the start; no Black piece stands lower.
    assert forall|r: int, c: int| on_board(r, c) && r >= 4 implies #[trigger] g1[r][c] == start_square(r, c) by {}
    assert forall|r: int, c: int| on_board(r, c) && r <= 3 implies !(#[trigger] g1[r][c] matches Some(q) && q.side
        == Side::Black) by {
        assert(g0[r][c] == start_square(r, c));
        assert(g0[fr][7] == start_square(fr, 7));
        assert(g0[fr][0] == start_square(fr, 0));
    }
    // Black's knight from b8 to a6.
    let from = Position { row: 7, col: 1 };
    let mv = ChessMove { from, to: Position { row: 5, col: 0 }, promotion: None };
    let knight = Piece { kind: PieceKind::Knight, side: Side::Black };
    assert(g1[7][1] == start_square(7, 1));
    assert(g1[5][0] == start_square(5, 0));
    assert(g1[7][1] == Some(knight));
    assert(plain(from, 5, 0) == mv);
    assert(leap(g1, from, Side::Black, -2, -1) =~= seq![mv]) by {
        reveal(leap);
    }
    let km = knight_moves(g1, from, Side::Black);
    assert(km[0] == mv);
    assert(km.contains(mv));
    let g2 = board_after(g1, s1.en_passant_target, Side::Black, mv);
    assert(g2 == set_sq(set_sq(g1, 7, 1, None), 5, 0, Some(knight)));
    assert forall|r: int, c: int| on_board(r, c) && r >= 6 && !(r == 7 && c == 1) implies #[trigger] g2[r][c]
        == start_square(r, c) by {
        assert(g1[r][c] == start_square(r, c));
    }
    assert forall|r: int, c: int| on_board(r, c) && 4 <= r <= 5 && !(r == 5 && c == 0) implies #[trigger] g2[r][c]
        is None by {
        assert(g1[r][c] == start_square(r, c));
    }
    assert forall|r: int, c: int| on_board(r, c) && r <= 3 implies !(#[trigger] g2[r][c] matches Some(q) && q.side
        == Side::Black) by {
        assert(g1[r][c] == g2[r][c]);
    }
    assert(g2[7][4] == start_square(7, 4));
    assert forall|k: int| 0 <= k < 60 implies !holds(g2, #[trigger] (k / 8), k % 8, Side::Black, PieceKind::King) by {
        let r = k / 8;
        let c = k % 8;
        if r >= 6 && !(r == 7 && c == 1) {
            assert(g2[r][c] == start_square(r, c));
        }
    }
    lemma_first_king_at(g2, Side::Black, 0, 60);
    assert(!attacked(g2, 7, 4, Side::White)) by {
        assert(g2[6][3] == start_square(6, 3));
        assert(g2[6][4] == start_square(6, 4));
        assert(g2[6][5] == start_square(6, 5));
        assert(g2[6][2] == start_square(6, 2));
        assert(g2[6][6] == start_square(6, 6));
        assert(g2[7][3] == start_square(7, 3));
        assert(g2[7][5] == start_square(7, 5));
        assert(g2[5][3] is None);
        assert(g2[5][5] is None);
    }
    assert(!king_in_check(g2, Side::Black));
    assert(rejection_of(s1, Side::Black, mv).is_none());
    law_validate_iff_legal(s1, mv);
    // No draw yet: one reversible move at most, two positions recorded, and
    // more than a lone king or a minor piece on each side.
    assert(!threefold(s1.position_history@));
    let w = side_pieces(g1, Side::White, 64);
    let b = side_pieces(g1, Side::Black, 64);
    assert(b.len() >= 3) by {
        assert(g1[7][0] == start_square(7, 0));
        assert(g1[7][2] == start_square(7, 2));
        assert(g1[7][3] == start_square(7, 3));
        lemma_side_pieces_mono(g1, Side::Black, 60, 64);
        lemma_side_pieces_mono(g1, Side::Black, 57, 58);
        assert(side_pieces(g1, Side::Black, 57).len() == side_pieces(g1, Side::Black, 56).len() + 1);
        assert(side_pieces(g1, Side::Black, 59).len() == side_pieces(g1, Side::Black, 58).len() + 1);
        assert(side_pieces(g1, Side::Black, 60).len() == side_pieces(g1, Side::Black, 59).len() + 1);
    }
    assert(w.len() >= 2) by {
        assert(g0[1][0] == start_square(1, 0));
        assert(g0[1][1] == start_square(1, 1));
        assert(g0[1][2] == start_square(1, 2));
        assert(g1[1][0] matches Some(q) && q.side == Side::White || fr == 1 && fc == 0);
        assert(g1[1][1] matches Some(q) && q.side == Side::White || fr == 1 && fc == 1);
        assert(g1[1][2] matches Some(q) && q.side == Side::White || fr == 1 && fc == 2);
        lemma_side_pieces_mono(g1, Side::White, 11, 64);
        lemma_side_pieces_mono(g1, Side::White, 0, 8);
        lemma_side_pieces_mono(g1, Side::White, 9, 10);
    }
    assert(!insufficient(g1));
}


// ---------------------------------------------------------------------------
// Laws of pawn captures and of drawn material
// ---------------------------------------------------------------------------

proof fn lemma_contains_left(a: Seq<ChessMove>, b: Seq<ChessMove>, x: ChessMove)
    requires
        a.contains(x),
    ensures
        (a + b).contains(x),
{
    let k = choose|k: int| 0 <= k < a.len() && a[k] == x;
    assert((a + b)[k] == x);
}

proof fn lemma_contains_right(a: Seq<ChessMove>, b: Seq<ChessMove>, x: ChessMove)
    requires
        b.contains(x),
    ensures
        (a + b).contains(x),
{
    let k = choose|k: int| 0 <= k < b.len() && b[k] == x;
    assert((a + b)[a.len() + k] == x);
}

/// The row a pawn of `side` on row `r` moves to: White's pawns go up the
/// board, Black's down.
pub open spec fn forward_row(side: Side, r: int) -> int {
    if side == Side::White {
        r + 1
    } else {
        r - 1
    }
}

/// A pawn of the side to move takes an enemy piece (not a king) standing one
/// square diagonally forward of it, on either side, as long as its own king
/// is not left attacked: the capture passes validation and is among the legal
/// moves. Landing on the far row it must name a queen, rook, bishop or knight;
/// elsewhere it names none.
pub proof fn law_pawn_captures_diagonally(s: &ChessState, r: int, c: int, dc: int, m: ChessMove)
    requires
        s.wf(),
        dc == 1 || dc == -1,
        0 <= r < 8,
        0 <= c < 8,
        0 <= forward_row(turn_side(s.current_turn as int), r) < 8,
        0 <= c + dc < 8,
        s.board[r][c] == Some(Piece { kind: PieceKind::Pawn, side: turn_side(s.current_turn as int) }),
        s.board[forward_row(turn_side(s.current_turn as int), r)][c + dc] matches Some(t) && t.side != turn_side(
            s.current_turn as int,
        ) && t.kind != PieceKind::King,
        m.from == (Position { row: r as u8, col: c as u8 }),
        m.to == (Position { row: forward_row(turn_side(s.current_turn as int), r) as u8, col: (c + dc) as u8 }),
        if m.to.row == 0 || m.to.row == 7 {
            m.promotion == Some(PieceKind::Queen) || m.promotion == Some(PieceKind::Rook) || m.promotion == Some(
                PieceKind::Bishop,
            ) || m.promotion == Some(PieceKind::Knight)
        } else {
            m.promotion.is_none()
        },
        !king_in_check(board_after(grid(s.board), s.en_passant_target, turn_side(s.current_turn as int), m), turn_side(s.current_turn as int)),
    ensures
        rejection_of(s, turn_side(s.current_turn as int), m).is_none(),
        legal_moves_of(s).contains(m),
{
    let side = turn_side(s.current_turn as int);
    let g = grid(s.board);
    let ep = s.en_passant_target;
    let tr = forward_row(side, r);
    let tc = c + dc;
    assert(g[r][c] == s.board[r][c]);
    assert(g[tr][tc] == s.board[tr][tc]);
    assert(tr == r + pawn_dir(side));
    assert(m.from.row as int == r && m.from.col as int == c);
    assert(m.to.row as int == tr && m.to.col as int == tc);
    assert(m.to == pos_of(tr, tc));
    let caps = pawn_capture(g, ep, m.from, side, dc);
    if tr == last_row(side) {
        let ps = promotions(m.from, pos_of(tr, tc));
        assert(caps == ps);
        if m.promotion == Some(PieceKind::Queen) {
            assert(ps[0] == m);
        } else if m.promotion == Some(PieceKind::Rook) {
            assert(ps[1] == m);
        } else if m.promotion == Some(PieceKind::Bishop) {
            assert(ps[2] == m);
        } else {
            assert(ps[3] == m);
        }
    } else {
        assert(caps == seq![plain(m.from, tr, tc)]);
        assert(caps[0] == m);
    }
    assert(caps.contains(m));
    let pushes = pawn_pushes(g, m.from, side);
    let left = pawn_capture(g, ep, m.from, side, -1);
    let right = pawn_capture(g, ep, m.from, side, 1);
    if dc == -1 {
        lemma_contains_right(pushes, left, m);
        lemma_contains_left(pushes + left, right, m);
    } else {
        lemma_contains_right(pushes + left, right, m);
    }
    let piece = Piece { kind: PieceKind::Pawn, side };
    assert(pseudo_moves(g, s.castle_rights, ep, s.current_turn as int, m.from, piece) == pawn_moves(g, ep, m.from, side));
    assert(rejection_of(s, side, m).is_none());
    law_validate_iff_legal(s, m);
}

proof fn lemma_pushes_same_column(b: Grid, from: Position, side: Side)
    requires
        from.row < 8,
        from.col < 8,
    ensures
        forall|k: int| 0 <= k < pawn_pushes(b, from, side).len() ==> (#[trigger] pawn_pushes(b, from, side)[k]).to.col
            == from.col,
{
    let r = from.row as int;
    let c = from.col as int;
    let nr = r + pawn_dir(side);
    let ps = pawn_pushes(b, from, side);
    if on_board(nr, c) && b[nr][c].is_none() {
        if nr == last_row(side) {
            assert(ps == promotions(from, pos_of(nr, c)));
        } else {
            let two = if r == pawn_start_row(side) && b[r + 2 * pawn_dir(side)][c].is_none() {
                seq![plain(from, r + 2 * pawn_dir(side), c)]
            } else {
                Seq::empty()
            };
            assert(ps == seq![plain(from, nr, c)] + two);
            assert forall|k: int| 0 <= k < ps.len() implies (#[trigger] ps[k]).to.col == from.col by {
                if k >= 1 {
                    assert(ps[k] == two[k - 1]);
                }
            }
        }
    }
}

proof fn lemma_capture_column(b: Grid, ep: Option<Position>, from: Position, side: Side, dc: int)
    ensures
        forall|k: int|
            0 <= k < pawn_capture(b, ep, from, side, dc).len() ==> (#[trigger] pawn_capture(b, ep, from, side, dc)[k]).to.col
                as int == from.col + dc,
{
    let tr = from.row as int + pawn_dir(side);
    let tc = from.col as int + dc;
    if on_board(tr, tc) && tr == last_row(side) {
        assert(pawn_capture(b, ep, from, side, dc) =~= promotions(from, pos_of(tr, tc)) || pawn_capture(b, ep, from, side, dc).len() == 0);
    }
}

/// A pawn of the side to move cannot move one square diagonally forward,
/// other than onto the en-passant target, unless an enemy piece stands there:
/// onto an empty square or one of its own side's pieces, validation refuses
/// the move and it is not a legal move, whatever promotion it names.
pub proof fn law_pawn_diagonal_needs_a_capture(s: &ChessState, r: int, c: int, dc: int, m: ChessMove)
    requires
        s.wf(),
        dc == 1 || dc == -1,
        0 <= r < 8,
        0 <= c < 8,
        0 <= forward_row(turn_side(s.current_turn as int), r) < 8,
        0 <= c + dc < 8,
        s.board[r][c] == Some(Piece { kind: PieceKind::Pawn, side: turn_side(s.current_turn as int) }),
        m.from == (Position { row: r as u8, col: c as u8 }),
        m.to == (Position { row: forward_row(turn_side(s.current_turn as int), r) as u8, col: (c + dc) as u8 }),
        s.en_passant_target != Some(m.to),
        s.board[forward_row(turn_side(s.current_turn as int), r)][c + dc] matches Some(t) ==> t.side == turn_side(
            s.current_turn as int,
        ),
    ensures
        rejection_of(s, turn_side(s.current_turn as int), m).is_some(),
        !legal_moves_of(s).contains(m),
{
    let side = turn_side(s.current_turn as int);
    let g = grid(s.board);
    let ep = s.en_passant_target;
    let tr = forward_row(side, r);
    let tc = c + dc;
    assert(g[r][c] == s.board[r][c]);
    assert(g[tr][tc] == s.board[tr][tc]);
    assert(tr == r + pawn_dir(side));
    assert(m.from.row as int == r && m.from.col as int == c);
    assert(m.to.row as int == tr && m.to.col as int == tc);
    assert(m.to == pos_of(tr, tc));
    let pushes = pawn_pushes(g, m.from, side);
    let left = pawn_capture(g, ep, m.from, side, -1);
    let right = pawn_capture(g, ep, m.from, side, 1);
    lemma_pushes_same_column(g, m.from, side);
    lemma_capture_column(g, ep, m.from, side, -1);
    lemma_capture_column(g, ep, m.from, side, 1);
    assert(m.from.row as int + pawn_dir(side) == tr && m.from.col as int + dc == tc);
    assert(!(g[tr][tc] matches Some(p) && p.side != side));
    assert(ep != Some(pos_of(tr, tc)));
    assert(pawn_capture(g, ep, m.from, side, dc).len() == 0);
    let all = pushes + left + right;
    assert forall|k: int| 0 <= k < all.len() implies all[k] != m by {
        if k < pushes.len() {
            assert(all[k] == pushes[k]);
        } else if k < pushes.len() + left.len() {
            assert(all[k] == left[k - pushes.len()]);
        } else {
            assert(all[k] == right[k - pushes.len() - left.len()]);
        }
    }
    let piece = Piece { kind: PieceKind::Pawn, side };
    assert(pseudo_moves(g, s.castle_rights, ep, s.current_turn as int, m.from, piece) == all);
    assert(!all.contains(m));
    assert(rejection_of(s, side, m).is_some());
    law_validate_iff_legal(s, m);
}

/// The pieces of `side` on the first `n` squares, where `side` has pieces
/// only on the squares numbered `a` and `b` (row-major; `b` may be 64, past
/// the board, for a single piece).
proof fn lemma_side_pieces_at(g: Grid, side: Side, a: int, ka: PieceKind, b: int, kb: PieceKind, n: int)
    requires
        0 <= a < b <= 64,
        0 <= n <= 64,
        forall|j: int|
            0 <= j < 64 && j != a && j != b ==> !(#[trigger] g[j / 8][j % 8] matches Some(p) && p.side == side),
        g[a / 8][a % 8] == Some(Piece { kind: ka, side }),
        b < 64 ==> g[b / 8][b % 8] == Some(Piece { kind: kb, side }),
    ensures
        side_pieces(g, side, n) == (if a < n {
            seq![(ka, (a / 8) as u8, (a % 8) as u8)]
        } else {
            Seq::empty()
        }) + (if b < n {
            seq![(kb, (b / 8) as u8, (b % 8) as u8)]
        } else {
            Seq::empty()
        }),
    decreases n,
{
    if n > 0 {
        lemma_side_pieces_at(g, side, a, ka, b, kb, n - 1);
        let j = n - 1;
        if j != a && j != b {
            assert(!(g[j / 8][j % 8] matches Some(p) && p.side == side));
        }
        assert(side_pieces(g, side, n) =~= (if a < n {
            seq![(ka, (a / 8) as u8, (a % 8) as u8)]
        } else {
            Seq::empty()
        }) + (if b < n {
            seq![(kb, (b / 8) as u8, (b % 8) as u8)]
        } else {
            Seq::empty()
        }));
    }
}

/// The number of the square (r, c) in row-major order.
pub open spec fn square_index(r: int, c: int) -> int {
    8 * r + c
}

/// A king and one other piece against a lone king, whichever colour has the
/// extra piece: the material is insufficient exactly when that piece is a
/// bishop or a knight. While the side to move still has a legal move, such a
/// game is then a draw; with a pawn, rook or queen it goes on unless the
/// fifty-move rule or a threefold repetition ends it.
pub proof fn law_king_and_one_piece_against_king(
    s: &ChessState,
    strong: Side,
    minor_kind: PieceKind,
    kr: int,
    kc: int,
    nr: int,
    nc: int,
    lr: int,
    lc: int,
)
    requires
        minor_kind != PieceKind::King,
        on_board(kr, kc),
        on_board(nr, nc),
        on_board(lr, lc),
        !(kr == nr && kc == nc),
        !(kr == lr && kc == lc),
        !(nr == lr && nc == lc),
        s.board[kr][kc] == Some(Piece { kind: PieceKind::King, side: strong }),
        s.board[nr][nc] == Some(Piece { kind: minor_kind, side: strong }),
        s.board[lr][lc] == Some(Piece { kind: PieceKind::King, side: other_side(strong) }),
        forall|r: int, c: int|
            on_board(r, c) && !(r == kr && c == kc) && !(r == nr && c == nc) && !(r == lr && c == lc)
                ==> (#[trigger] s.board[r][c]).is_none(),
    ensures
        insufficient(grid(s.board)) <==> (minor_kind == PieceKind::Bishop || minor_kind == PieceKind::Knight),
        legal_moves_of(s).len() > 0 && (minor_kind == PieceKind::Bishop || minor_kind == PieceKind::Knight)
            ==> chess_outcome(s) == Some(GameOutcome::Draw),
        legal_moves_of(s).len() > 0 && !(minor_kind == PieceKind::Bishop || minor_kind == PieceKind::Knight)
            && s.halfmove_clock < 100 && !threefold(s.position_history@) ==> chess_outcome(s) is None,
{
    let g = grid(s.board);
    let weak = other_side(strong);
    assert forall|j: int| 0 <= j < 64 implies #[trigger] g[j / 8][j % 8] == s.board[j / 8][j % 8] && (j / 8 == kr
        && j % 8 == kc <==> j == square_index(kr, kc)) && (j / 8 == nr && j % 8 == nc <==> j == square_index(nr, nc))
        && (j / 8 == lr && j % 8 == lc <==> j == square_index(lr, lc)) by {
        assert(on_board(j / 8, j % 8));
    }
    let ik = square_index(kr, kc);
    let in_ = square_index(nr, nc);
    let il = square_index(lr, lc);
    assert(ik / 8 == kr && ik % 8 == kc);
    assert(in_ / 8 == nr && in_ % 8 == nc);
    assert(il / 8 == lr && il % 8 == lc);
    assert(g[kr][kc] == s.board[kr][kc]);
    assert(g[nr][nc] == s.board[nr][nc]);
    assert(g[lr][lc] == s.board[lr][lc]);
    assert forall|j: int| 0 <= j < 64 && j != il && j != 64 implies !(#[trigger] g[j / 8][j % 8] matches Some(p)
        && p.side == weak) by {
        assert(on_board(j / 8, j % 8));
        assert(s.board[j / 8][j % 8] == g[j / 8][j % 8]);
    }
    lemma_side_pieces_at(g, weak, il, PieceKind::King, 64, PieceKind::King, 64);
    let ws = side_pieces(g, weak, 64);
    assert(lone_king(ws));
    let (a, ka, b, kb) = if ik < in_ {
        (ik, PieceKind::King, in_, minor_kind)
    } else {
        (in_, minor_kind, ik, PieceKind::King)
    };
    assert forall|j: int| 0 <= j < 64 && j != a && j != b implies !(#[trigger] g[j / 8][j % 8] matches Some(p)
        && p.side == strong) by {
        assert(on_board(j / 8, j % 8));
        assert(s.board[j / 8][j % 8] == g[j / 8][j % 8]);
    }
    lemma_side_pieces_at(g, strong, a, ka, b, kb, 64);
    let ss = side_pieces(g, strong, 64);
    assert(king_and_minor(ss) <==> minor(minor_kind));
    assert(bishop_square(ws) is None);
    assert(!lone_king(ss));
    assert(!king_and_minor(ws));
    if strong == Side::White {
        assert(ss == side_pieces(g, Side::White, 64) && ws == side_pieces(g, Side::Black, 64));
    } else {
        assert(ss == side_pieces(g, Side::Black, 64) && ws == side_pieces(g, Side::White, 64));
    }
}

/// Two bare kings cannot mate: the material is insufficient, and while the
/// side to move has a legal move the game is a draw.
pub proof fn law_bare_kings_are_drawn(s: &ChessState, wr: int, wc: int, br: int, bc: int)
    requires
        on_board(wr, wc),
        on_board(br, bc),
        !(wr == br && wc == bc),
        s.board[wr][wc] == Some(Piece { kind: PieceKind::King, side: Side::White }),
        s.board[br][bc] == Some(Piece { kind: PieceKind::King, side: Side::Black }),
        forall|r: int, c: int|
            on_board(r, c) && !(r == wr && c == wc) && !(r == br && c == bc) ==> (#[trigger] s.board[r][c]).is_none(),
    ensures
        insufficient(grid(s.board)),
        legal_moves_of(s).len() > 0 ==> chess_outcome(s) == Some(GameOutcome::Draw),
{
    let g = grid(s.board);
    assert forall|j: int| 0 <= j < 64 implies #[trigger] g[j / 8][j % 8] == s.board[j / 8][j % 8] && (j / 8 == wr
        && j % 8 == wc <==> j == square_index(wr, wc)) && (j / 8 == br && j % 8 == bc <==> j == square_index(br, bc)) by {
        assert(on_board(j / 8, j % 8));
    }
    let iw = square_index(wr, wc);
    let ib = square_index(br, bc);
    assert(iw / 8 == wr && iw % 8 == wc);
    assert(ib / 8 == br && ib % 8 == bc);
    assert(g[wr][wc] == s.board[wr][wc]);
    assert(g[br][bc] == s.board[br][bc]);
    assert forall|j: int| 0 <= j < 64 && j != iw && j != 64 implies !(#[trigger] g[j / 8][j % 8] matches Some(p)
        && p.side == Side::White) by {
        assert(on_board(j / 8, j % 8));
        assert(s.board[j / 8][j % 8] == g[j / 8][j % 8]);
    }
    assert forall|j: int| 0 <= j < 64 && j != ib && j != 64 implies !(#[trigger] g[j / 8][j % 8] matches Some(p)
        && p.side == Side::Black) by {
        assert(on_board(j / 8, j % 8));
        assert(s.board[j / 8][j % 8] == g[j / 8][j % 8]);
    }
    lemma_side_pieces_at(g, Side::White, iw, PieceKind::King, 64, PieceKind::King, 64);
    lemma_side_pieces_at(g, Side::Black, ib, PieceKind::King, 64, PieceKind::King, 64);
}

} // verus!
