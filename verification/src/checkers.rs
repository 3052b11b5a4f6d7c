use vstd::prelude::*;

use crate::random::choose_item;
use crate::types::{Difficulty, GameOutcome, GameSettings, PlayerId};

verus! {

// ---------------------------------------------------------------------------
// Data model
// ---------------------------------------------------------------------------

pub const BOARD_SIZE: usize = 8;

/// Plies without a capture or promotion after which the game is drawn.
pub const DRAW_PLY_LIMIT: u32 = 40;

/// A square: row 0 is Black's king row (Black moves up, towards row 0).
#[derive(Clone, Copy, Debug, PartialEq, Eq, Structural, Hash)]
pub struct Position {
    pub row: u8,
    pub col: u8,
}

#[derive(Clone, Copy, Debug, PartialEq, Eq, Structural)]
pub enum Side {
    Black,
    Red,
}

pub open spec fn opp(s: Side) -> Side {
    match s {
        Side::Black => Side::Red,
        Side::Red => Side::Black,
    }
}

impl Side {
    pub fn opponent(self) -> (r: Side)
        ensures
            r == opp(self),
    {
        match self {
            Side::Black => Side::Red,
            Side::Red => Side::Black,
        }
    }
}

#[derive(Clone, Copy, Debug, PartialEq, Eq, Structural)]
pub enum Square {
    Empty,
    Man(Side),
    King(Side),
}

pub open spec fn side_of(s: Square) -> Option<Side> {
    match s {
        Square::Man(x) => Some(x),
        Square::King(x) => Some(x),
        Square::Empty => None,
    }
}

pub open spec fn is_king_sq(s: Square) -> bool {
    s is King
}

impl Square {
    pub fn side(self) -> (r: Option<Side>)
        ensures
            r == side_of(self),
    {
        match self {
            Square::Man(s) => Some(s),
            Square::King(s) => Some(s),
            Square::Empty => None,
        }
    }

    pub fn is_king(self) -> (r: bool)
        ensures
            r == is_king_sq(self),
    {
        match self {
            Square::King(_) => true,
            _ => false,
        }
    }
}

/// A move: the squares visited, start first (at least two for a legal move).
#[derive(Clone, Debug)]
pub struct CheckersMove {
    pub path: Vec<Position>,
}

pub type CBoard = [[Square; 8]; 8];

#[derive(Clone, Copy, Debug)]
pub struct CheckersState {
    pub board: CBoard,
    /// players[0] plays Black (moves first), players[1] plays Red.
    pub players: [PlayerId; 2],
    pub current_turn: usize,
    pub move_count: u32,
    pub plies_since_progress: u32,
}

impl CheckersState {
    pub open spec fn wf(&self) -> bool {
        self.current_turn < 2
    }
}

/// The engine (stateless).
pub struct Checkers;

pub type CGrid = Seq<Seq<Square>>;

pub open spec fn cgrid(b: CBoard) -> CGrid {
    b@.map_values(|row: [Square; 8]| row@)
}

pub open spec fn set_sq(g: CGrid, r: int, c: int, v: Square) -> CGrid {
    g.update(r, g[r].update(c, v))
}

pub open spec fn on8(r: int, c: int) -> bool {
    0 <= r < 8 && 0 <= c < 8
}

pub open spec fn pos_in(p: Position) -> bool {
    p.row < 8 && p.col < 8
}

pub open spec fn turn_side(turn: int) -> Side {
    if turn == 0 {
        Side::Black
    } else {
        Side::Red
    }
}

pub open spec fn king_row_of(side: Side) -> int {
    match side {
        Side::Black => 0,
        Side::Red => 7,
    }
}

/// The row step of a man of `side`.
pub open spec fn fwd(side: Side) -> int {
    match side {
        Side::Black => -1,
        Side::Red => 1,
    }
}

/// `piece` of `side` may move with row step `dy` (kings both ways, men forward).
pub open spec fn dy_ok(piece: Square, side: Side, dy: int) -> bool {
    is_king_sq(piece) || dy == fwd(side)
}

// ---------------------------------------------------------------------------
// Captures
// ---------------------------------------------------------------------------

/// From (pr, pc), a jump by (2dy, 2dx) lands inside the board on an empty
/// square over an enemy piece.
pub open spec fn jump_at(g: CGrid, side: Side, pr: int, pc: int, dy: int, dx: int) -> bool {
    &&& on8(pr + 2 * dy, pc + 2 * dx)
    &&& g[pr + 2 * dy][pc + 2 * dx] == Square::Empty
    &&& side_of(g[pr + dy][pc + dx]) == Some(opp(side))
}

/// `piece` standing on `pos` can capture.
pub open spec fn has_jump_from(g: CGrid, piece: Square, pos: Position) -> bool {
    match side_of(piece) {
        None => false,
        Some(s) => {
            let r = pos.row as int;
            let c = pos.col as int;
            (dy_ok(piece, s, -1) && (jump_at(g, s, r, c, -1, -1) || jump_at(g, s, r, c, -1, 1))) || (
            dy_ok(piece, s, 1) && (jump_at(g, s, r, c, 1, -1) || jump_at(g, s, r, c, 1, 1)))
        },
    }
}

/// Some piece of `side` can capture.
pub open spec fn any_capture(g: CGrid, side: Side) -> bool {
    exists|r: int, c: int|
        on8(r, c) && side_of(#[trigger] g[r][c]) == Some(side) && has_jump_from(
            g,
            g[r][c],
            Position { row: r as u8, col: c as u8 },
        )
}

pub open spec fn dark(p: Position) -> bool {
    (p.row + p.col) % 2 == 1
}

/// Whether the square at `row`, `col` is dark (playable).
pub fn is_dark_square(row: usize, col: usize) -> (r: bool)
    requires
        row < 8,
        col < 8,
    ensures
        r == ((row + col) % 2 == 1),
{
    (row + col) % 2 == 1
}

// ---------------------------------------------------------------------------
// Move generation
// ---------------------------------------------------------------------------

pub open spec fn at(r: int, c: int) -> Position {
    Position { row: r as u8, col: c as u8 }
}

/// The simple step from `pos` by (dy, dx), if it lands on an empty square.
pub open spec fn one_step(g: CGrid, pos: Position, dy: int, dx: int) -> Seq<Seq<Position>> {
    let nr = pos.row + dy;
    let nc = pos.col + dx;
    if on8(nr, nc) && g[nr][nc] == Square::Empty {
        seq![seq![pos, at(nr, nc)]]
    } else {
        Seq::empty()
    }
}

/// Simple steps of `piece` from `pos`, in generation order.
pub open spec fn step_moves(g: CGrid, piece: Square, side: Side, pos: Position) -> Seq<Seq<Position>> {
    if is_king_sq(piece) {
        one_step(g, pos, -1, -1) + one_step(g, pos, -1, 1) + one_step(g, pos, 1, -1) + one_step(
            g,
            pos,
            1,
            1,
        )
    } else {
        one_step(g, pos, fwd(side), -1) + one_step(g, pos, fwd(side), 1)
    }
}

#[verifier::opaque]
/// Maximal capture chains continuing `path` (whose last square holds `piece`,
/// lifted off `g`), in generation order.
pub open spec fn jumps(g: CGrid, piece: Square, side: Side, path: Seq<Position>, fuel: nat) -> Seq<
    Seq<Position>,
>
    decreases fuel, 1nat,
{
    if is_king_sq(piece) {
        jump_branch(g, piece, side, path, -1, -1, fuel) + jump_branch(
            g,
            piece,
            side,
            path,
            -1,
            1,
            fuel,
        ) + jump_branch(g, piece, side, path, 1, -1, fuel) + jump_branch(
            g,
            piece,
            side,
            path,
            1,
            1,
            fuel,
        )
    } else {
        jump_branch(g, piece, side, path, fwd(side), -1, fuel) + jump_branch(
            g,
            piece,
            side,
            path,
            fwd(side),
            1,
            fuel,
        )
    }
}

#[verifier::opaque]
/// The chains starting with the jump by (2dy, 2dx): the chain stops on
/// promotion or when no further jump exists.
pub open spec fn jump_branch(
    g: CGrid,
    piece: Square,
    side: Side,
    path: Seq<Position>,
    dy: int,
    dx: int,
    fuel: nat,
) -> Seq<Seq<Position>>
    decreases fuel, 0nat,
{
    if fuel == 0 || path.len() == 0 {
        Seq::empty()
    } else {
        let pos = path.last();
        let r = pos.row as int;
        let c = pos.col as int;
        if jump_at(g, side, r, c, dy, dx) {
            let land = at(r + 2 * dy, c + 2 * dx);
            let promoted = !is_king_sq(piece) && land.row as int == king_row_of(side);
            let np = if promoted {
                Square::King(side)
            } else {
                piece
            };
            let g1 = set_sq(g, r + dy, c + dx, Square::Empty);
            let p1 = path.push(land);
            if promoted {
                seq![p1]
            } else {
                let sub = jumps(
                    set_sq(g1, r + 2 * dy, c + 2 * dx, np),
                    np,
                    side,
                    p1,
                    (fuel - 1) as nat,
                );
                if sub.len() == 0 {
                    seq![p1]
                } else {
                    sub
                }
            }
        } else {
            Seq::empty()
        }
    }
}

/// Moves of the piece on (r, c).
pub open spec fn square_moves(g: CGrid, side: Side, caps: bool, r: int, c: int) -> Seq<Seq<Position>> {
    let piece = g[r][c];
    if side_of(piece) != Some(side) {
        Seq::empty()
    } else if caps {
        jumps(set_sq(g, r, c, Square::Empty), piece, side, seq![at(r, c)], 64)
    } else {
        step_moves(g, piece, side, at(r, c))
    }
}

/// Moves of the pieces on the first `n` squares of row `r`.
pub open spec fn row_moves(g: CGrid, side: Side, caps: bool, r: int, n: nat) -> Seq<Seq<Position>>
    decreases n,
{
    if n == 0 {
        Seq::empty()
    } else {
        row_moves(g, side, caps, r, (n - 1) as nat) + square_moves(g, side, caps, r, n - 1)
    }
}

/// Moves of the pieces on the first `n` rows.
pub open spec fn moves_upto(g: CGrid, side: Side, caps: bool, n: nat) -> Seq<Seq<Position>>
    decreases n,
{
    if n == 0 {
        Seq::empty()
    } else {
        moves_upto(g, side, caps, (n - 1) as nat) + row_moves(g, side, caps, n - 1, 8)
    }
}

/// All legal moves of the side to move: capture chains when any capture
/// exists, simple steps otherwise.
pub open spec fn legal_paths(st: CheckersState) -> Seq<Seq<Position>> {
    let g = cgrid(st.board);
    let side = turn_side(st.current_turn as int);
    moves_upto(g, side, any_capture(g, side), 8)
}

pub open spec fn paths_of(v: Seq<CheckersMove>) -> Seq<Seq<Position>> {
    v.map_values(|m: CheckersMove| m.path@)
}


fn in_bounds(r: i32, c: i32) -> (b: bool)
    ensures
        b == on8(r as int, c as int),
{
    0 <= r && r < 8 && 0 <= c && c < 8
}

pub fn king_row(side: Side) -> (r: u8)
    ensures
        r == king_row_of(side),
{
    match side {
        Side::Black => 0,
        Side::Red => 7,
    }
}

fn forward(side: Side) -> (d: i32)
    ensures
        d == fwd(side),
{
    match side {
        Side::Black => -1,
        Side::Red => 1,
    }
}

fn jump_ok(board: &CBoard, side: Side, r: i32, c: i32, dy: i32, dx: i32) -> (b: bool)
    requires
        on8(r as int, c as int),
        dy == 1 || dy == -1,
        dx == 1 || dx == -1,
    ensures
        b == jump_at(cgrid(*board), side, r as int, c as int, dy as int, dx as int),
{
    let lr = r + 2 * dy;
    let lc = c + 2 * dx;
    if !in_bounds(lr, lc) {
        return false;
    }
    let mid = board[(r + dy) as usize][(c + dx) as usize];
    let land = board[lr as usize][lc as usize];
    let enemy = match mid.side() {
        Some(s) => s == side.opponent(),
        None => false,
    };
    land == Square::Empty && enemy
}

/// Whether `piece` on `pos` can capture (see `has_jump_from`).
pub fn piece_has_jump_from(board: &CBoard, piece: Square, pos: Position) -> (b: bool)
    requires
        pos_in(pos),
    ensures
        b == has_jump_from(cgrid(*board), piece, pos),
{
    let side = match piece.side() {
        Some(s) => s,
        None => {
            return false;
        },
    };
    let r = pos.row as i32;
    let c = pos.col as i32;
    let king = piece.is_king();
    let f = forward(side);
    if king || f == -1 {
        if jump_ok(board, side, r, c, -1, -1) || jump_ok(board, side, r, c, -1, 1) {
            return true;
        }
    }
    if king || f == 1 {
        if jump_ok(board, side, r, c, 1, -1) || jump_ok(board, side, r, c, 1, 1) {
            return true;
        }
    }
    false
}

/// Whether some piece of `side` can capture.
pub fn any_capture_available(board: &CBoard, side: Side) -> (b: bool)
    ensures
        b == any_capture(cgrid(*board), side),
{
    let ghost g = cgrid(*board);
    let mut r: usize = 0;
    while r < 8
        invariant
            g == cgrid(*board),
            r <= 8,
            forall|r2: int, c2: int|
                0 <= r2 < r && 0 <= c2 < 8 ==> !(side_of(#[trigger] g[r2][c2]) == Some(side)
                    && has_jump_from(g, g[r2][c2], at(r2, c2))),
        decreases 8 - r,
    {
        let mut c: usize = 0;
        while c < 8
            invariant
                g == cgrid(*board),
                r < 8,
                c <= 8,
                forall|r2: int, c2: int|
                    (0 <= r2 < r && 0 <= c2 < 8) || (r2 == r && 0 <= c2 < c) ==> !(side_of(
                        #[trigger] g[r2][c2],
                    ) == Some(side) && has_jump_from(g, g[r2][c2], at(r2, c2))),
            decreases 8 - c,
        {
            let piece = board[r][c];
            let pos = Position { row: r as u8, col: c as u8 };
            assert(g[r as int][c as int] == piece);
            let mine = match piece.side() {
                Some(s) => s == side,
                None => false,
            };
            if mine && piece_has_jump_from(board, piece, pos) {
                assert(on8(r as int, c as int) && side_of(g[r as int][c as int]) == Some(side)
                    && has_jump_from(g, g[r as int][c as int], at(r as int, c as int)));
                return true;
            }
            c += 1;
        }
        r += 1;
    }
    false
}

fn copy_path(v: &Vec<Position>) -> (r: Vec<Position>)
    ensures
        r@ == v@,
{
    let mut r: Vec<Position> = Vec::new();
    let mut i: usize = 0;
    while i < v.len()
        invariant
            i <= v@.len(),
            r@ == v@.subrange(0, i as int),
        decreases v@.len() - i,
    {
        r.push(v[i]);
        assert(v@.subrange(0, i + 1) =~= v@.subrange(0, i as int).push(v@[i as int]));
        i += 1;
    }
    assert(v@.subrange(0, v@.len() as int) =~= v@);
    r
}

proof fn lemma_paths_push(v: Seq<CheckersMove>, m: CheckersMove)
    ensures
        paths_of(v.push(m)) == paths_of(v).push(m.path@),
{
    assert(paths_of(v.push(m)) =~= paths_of(v).push(m.path@));
}

fn push_step(board: &CBoard, pos: Position, dy: i32, dx: i32, out: &mut Vec<CheckersMove>)
    requires
        pos_in(pos),
        dy == 1 || dy == -1,
        dx == 1 || dx == -1,
    ensures
        paths_of(final(out)@) == paths_of(old(out)@) + one_step(
            cgrid(*board),
            pos,
            dy as int,
            dx as int,
        ),
{
    let nr = pos.row as i32 + dy;
    let nc = pos.col as i32 + dx;
    if in_bounds(nr, nc) && board[nr as usize][nc as usize] == Square::Empty {
        let mut path: Vec<Position> = Vec::new();
        path.push(pos);
        path.push(Position { row: nr as u8, col: nc as u8 });
        let m = CheckersMove { path };
        proof {
            lemma_paths_push(out@, m);
            assert(m.path@ =~= seq![pos, at(nr as int, nc as int)]);
        }
        out.push(m);
        assert(paths_of(out@) =~= paths_of(old(out)@) + one_step(
            cgrid(*board),
            pos,
            dy as int,
            dx as int,
        ));
    } else {
        assert(paths_of(out@) =~= paths_of(old(out)@) + one_step(
            cgrid(*board),
            pos,
            dy as int,
            dx as int,
        ));
    }
}

fn collect_steps(board: &CBoard, piece: Square, side: Side, pos: Position, out: &mut Vec<CheckersMove>)
    requires
        pos_in(pos),
    ensures
        paths_of(final(out)@) == paths_of(old(out)@) + step_moves(cgrid(*board), piece, side, pos),
{
    let g = Ghost(cgrid(*board));
    if piece.is_king() {
        push_step(board, pos, -1, -1, out);
        push_step(board, pos, -1, 1, out);
        push_step(board, pos, 1, -1, out);
        push_step(board, pos, 1, 1, out);
        assert(paths_of(out@) =~= paths_of(old(out)@) + step_moves(g@, piece, side, pos));
    } else {
        let f = forward(side);
        push_step(board, pos, f, -1, out);
        push_step(board, pos, f, 1, out);
        assert(paths_of(out@) =~= paths_of(old(out)@) + step_moves(g@, piece, side, pos));
    }
}


/// Appends the capture chains continuing `path` (see `jumps`); the board and
/// the path are restored on return.
fn extend_jumps(
    board: &mut CBoard,
    piece: Square,
    side: Side,
    path: &mut Vec<Position>,
    out: &mut Vec<CheckersMove>,
    fuel: usize,
)
    requires
        old(path)@.len() > 0,
        pos_in(old(path)@.last()),
    ensures
        cgrid(*final(board)) == cgrid(*old(board)),
        final(path)@ == old(path)@,
        paths_of(final(out)@) == paths_of(old(out)@) + jumps(
            cgrid(*old(board)),
            piece,
            side,
            old(path)@,
            fuel as nat,
        ),
    decreases fuel, 1nat,
{
    let ghost g = cgrid(*board);
    let ghost o0 = paths_of(out@);
    proof {
        lemma_jumps_unfold(g, piece, side, old(path)@, fuel as nat);
    }
    if piece.is_king() {
        jump_branch_exec(board, piece, side, path, out, -1, -1, fuel);
        jump_branch_exec(board, piece, side, path, out, -1, 1, fuel);
        jump_branch_exec(board, piece, side, path, out, 1, -1, fuel);
        jump_branch_exec(board, piece, side, path, out, 1, 1, fuel);
        assert(paths_of(out@) =~= o0 + jumps(g, piece, side, old(path)@, fuel as nat));
    } else {
        let f = forward(side);
        jump_branch_exec(board, piece, side, path, out, f, -1, fuel);
        jump_branch_exec(board, piece, side, path, out, f, 1, fuel);
        assert(paths_of(out@) =~= o0 + jumps(g, piece, side, old(path)@, fuel as nat));
    }
}

fn set_cell(board: &mut CBoard, r: usize, c: usize, v: Square)
    requires
        r < 8,
        c < 8,
    ensures
        cgrid(*final(board)) == set_sq(cgrid(*old(board)), r as int, c as int, v),
{
    board[r][c] = v;
    assert(cgrid(*board) =~~= set_sq(cgrid(*old(board)), r as int, c as int, v));
}

proof fn lemma_set_back(g: CGrid, r: int, c: int, v: Square)
    requires
        on8(r, c),
        g.len() == 8,
        forall|i: int| 0 <= i < 8 ==> (#[trigger] g[i]).len() == 8,
    ensures
        set_sq(set_sq(g, r, c, v), r, c, g[r][c]) == g,
{
    assert(set_sq(set_sq(g, r, c, v), r, c, g[r][c]) =~~= g);
}

pub proof fn lemma_cgrid_shape(b: CBoard)
    ensures
        cgrid(b).len() == 8,
        forall|i: int| 0 <= i < 8 ==> (#[trigger] cgrid(b)[i]).len() == 8,
{
}

/// `jump_branch` when the jump exists (one unfolding).
proof fn lemma_branch_taken(
    g: CGrid,
    piece: Square,
    side: Side,
    path: Seq<Position>,
    dy: int,
    dx: int,
    fuel: nat,
)
    requires
        fuel > 0,
        path.len() > 0,
        jump_at(g, side, path.last().row as int, path.last().col as int, dy, dx),
    ensures
        ({
            let r = path.last().row as int;
            let c = path.last().col as int;
            let land = at(r + 2 * dy, c + 2 * dx);
            let promoted = !is_king_sq(piece) && land.row as int == king_row_of(side);
            let np = if promoted {
                Square::King(side)
            } else {
                piece
            };
            let p1 = path.push(land);
            let sub = jumps(
                set_sq(set_sq(g, r + dy, c + dx, Square::Empty), r + 2 * dy, c + 2 * dx, np),
                np,
                side,
                p1,
                (fuel - 1) as nat,
            );
            jump_branch(g, piece, side, path, dy, dx, fuel) == if promoted {
                seq![p1]
            } else if sub.len() == 0 {
                seq![p1]
            } else {
                sub
            }
        }),
{
    reveal_with_fuel(jump_branch, 2);
    reveal_with_fuel(jumps, 2);
}

proof fn lemma_branch_none(
    g: CGrid,
    piece: Square,
    side: Side,
    path: Seq<Position>,
    dy: int,
    dx: int,
    fuel: nat,
)
    requires
        path.len() > 0,
        fuel == 0 || !jump_at(g, side, path.last().row as int, path.last().col as int, dy, dx),
    ensures
        jump_branch(g, piece, side, path, dy, dx, fuel) == Seq::<Seq<Position>>::empty(),
{
    reveal_with_fuel(jump_branch, 2);
    reveal_with_fuel(jumps, 2);
}

proof fn lemma_jumps_unfold(g: CGrid, piece: Square, side: Side, path: Seq<Position>, fuel: nat)
    ensures
        jumps(g, piece, side, path, fuel) == if is_king_sq(piece) {
            jump_branch(g, piece, side, path, -1, -1, fuel) + jump_branch(
                g,
                piece,
                side,
                path,
                -1,
                1,
                fuel,
            ) + jump_branch(g, piece, side, path, 1, -1, fuel) + jump_branch(
                g,
                piece,
                side,
                path,
                1,
                1,
                fuel,
            )
        } else {
            jump_branch(g, piece, side, path, fwd(side), -1, fuel) + jump_branch(
                g,
                piece,
                side,
                path,
                fwd(side),
                1,
                fuel,
            )
        },
{
    reveal_with_fuel(jumps, 2);
    reveal_with_fuel(jump_branch, 2);
}

fn jump_branch_exec(
    board: &mut CBoard,
    piece: Square,
    side: Side,
    path: &mut Vec<Position>,
    out: &mut Vec<CheckersMove>,
    dy: i32,
    dx: i32,
    fuel: usize,
)
    requires
        old(path)@.len() > 0,
        pos_in(old(path)@.last()),
        dy == 1 || dy == -1,
        dx == 1 || dx == -1,
    ensures
        cgrid(*final(board)) == cgrid(*old(board)),
        final(path)@ == old(path)@,
        paths_of(final(out)@) == paths_of(old(out)@) + jump_branch(
            cgrid(*old(board)),
            piece,
            side,
            old(path)@,
            dy as int,
            dx as int,
            fuel as nat,
        ),
    decreases fuel, 0nat,
{
    let ghost g = cgrid(*board);
    let ghost p0 = path@;
    let ghost o0 = paths_of(out@);
    if fuel == 0 {
        proof {
            lemma_branch_none(g, piece, side, p0, dy as int, dx as int, 0);
        }
        assert(paths_of(out@) =~= o0 + jump_branch(g, piece, side, p0, dy as int, dx as int, 0));
        return;
    }
    let pos = path[path.len() - 1];
    let r = pos.row as i32;
    let c = pos.col as i32;
    if !jump_ok(board, side, r, c, dy, dx) {
        proof {
            lemma_branch_none(g, piece, side, p0, dy as int, dx as int, fuel as nat);
        }
        assert(paths_of(out@) =~= o0 + jump_branch(
            g,
            piece,
            side,
            p0,
            dy as int,
            dx as int,
            fuel as nat,
        ));
        return;
    }
    proof {
        lemma_branch_taken(g, piece, side, p0, dy as int, dx as int, fuel as nat);
        lemma_cgrid_shape(*board);
    }
    let ghost expected = jump_branch(g, piece, side, p0, dy as int, dx as int, fuel as nat);
    let mr = (r + dy) as usize;
    let mc = (c + dx) as usize;
    let lr = (r + 2 * dy) as usize;
    let lc = (c + 2 * dx) as usize;
    let mid_piece = board[mr][mc];
    assert(mid_piece == g[mr as int][mc as int]);
    let landing = Position { row: lr as u8, col: lc as u8 };
    let promoted = !piece.is_king() && landing.row == king_row(side);
    let np = if promoted {
        Square::King(side)
    } else {
        piece
    };
    set_cell(board, mr, mc, Square::Empty);
    let ghost g1 = cgrid(*board);
    path.push(landing);
    assert(landing == at(r + 2 * dy, c + 2 * dx));
    if promoted {
        let m = CheckersMove { path: copy_path(path) };
        proof {
            lemma_paths_push(out@, m);
        }
        out.push(m);
        assert(paths_of(out@) =~= o0 + expected);
    } else {
        set_cell(board, lr, lc, np);
        let before = out.len();
        extend_jumps(board, np, side, path, out, fuel - 1);
        let no_further = out.len() == before;
        proof {
            lemma_cgrid_shape(*board);
            assert(g1[lr as int][lc as int] == Square::Empty);
            lemma_set_back(g1, lr as int, lc as int, np);
        }
        set_cell(board, lr, lc, Square::Empty);
        if no_further {
            let m = CheckersMove { path: copy_path(path) };
            proof {
                lemma_paths_push(out@, m);
            }
            out.push(m);
            assert(paths_of(out@) =~= o0 + expected);
        } else {
            assert(paths_of(out@) =~= o0 + expected);
        }
    }
    path.pop();
    assert(path@ =~= p0);
    proof {
        lemma_set_back(g, mr as int, mc as int, Square::Empty);
    }
    set_cell(board, mr, mc, mid_piece);
}

/// All legal moves of the side to move (see `legal_paths`).
pub fn legal_moves(state: &CheckersState) -> (moves: Vec<CheckersMove>)
    requires
        state.wf(),
    ensures
        paths_of(moves@) == legal_paths(*state),
{
    let side = if state.current_turn == 0 {
        Side::Black
    } else {
        Side::Red
    };
    let ghost g = cgrid(state.board);
    let mut moves: Vec<CheckersMove> = Vec::new();
    let captures = any_capture_available(&state.board, side);
    let mut r: usize = 0;
    while r < 8
        invariant
            g == cgrid(state.board),
            r <= 8,
            paths_of(moves@) == moves_upto(g, side, captures, r as nat),
        decreases 8 - r,
    {
        let mut c: usize = 0;
        while c < 8
            invariant
                g == cgrid(state.board),
                r < 8,
                c <= 8,
                paths_of(moves@) == moves_upto(g, side, captures, r as nat) + row_moves(
                    g,
                    side,
                    captures,
                    r as int,
                    c as nat,
                ),
            decreases 8 - c,
        {
            let ghost before = paths_of(moves@);
            let piece = state.board[r][c];
            assert(g[r as int][c as int] == piece);
            let mine = match piece.side() {
                Some(s) => s == side,
                None => false,
            };
            let pos = Position { row: r as u8, col: c as u8 };
            if mine {
                if captures {
                    let mut board = state.board;
                    board[r][c] = Square::Empty;
                    assert(cgrid(board) =~~= set_sq(g, r as int, c as int, Square::Empty));
                    let mut path: Vec<Position> = Vec::new();
                    path.push(pos);
                    assert(path@ =~= seq![at(r as int, c as int)]);
                    extend_jumps(&mut board, piece, side, &mut path, &mut moves, 64);
                } else {
                    collect_steps(&state.board, piece, side, pos, &mut moves);
                }
            }
            assert(paths_of(moves@) =~= before + square_moves(g, side, captures, r as int, c as int));
            c += 1;
        }
        r += 1;
    }
    moves
}

/// The legal moves of the side to move, for callers outside the engine.
pub fn legal_moves_public(state: &CheckersState) -> (moves: Vec<CheckersMove>)
    requires
        state.wf(),
    ensures
        paths_of(moves@) == legal_paths(*state),
{
    legal_moves(state)
}


// ---------------------------------------------------------------------------
// Playing a move
// ---------------------------------------------------------------------------

pub open spec fn iabs(x: int) -> int {
    if x < 0 {
        -x
    } else {
        x
    }
}

pub open spec fn is_jump_hop(from: Position, to: Position) -> bool {
    iabs(to.row - from.row) == 2 && iabs(to.col - from.col) == 2
}

/// Playing the first `m` hops of `path` for `side`: (board without the moving
/// piece, the piece as it is now, captures so far, promoted so far).
pub open spec fn run_path(g: CGrid, side: Side, path: Seq<Position>, m: nat) -> (CGrid, Square, nat, bool)
    decreases m,
{
    if m == 0 {
        let s = path[0];
        (set_sq(g, s.row as int, s.col as int, Square::Empty), g[s.row as int][s.col as int], 0, false)
    } else {
        let prev = run_path(g, side, path, (m - 1) as nat);
        let from = path[m - 1];
        let to = path[m as int];
        let jump = is_jump_hop(from, to);
        let g1 = if jump {
            set_sq(prev.0, (from.row + to.row) / 2, (from.col + to.col) / 2, Square::Empty)
        } else {
            prev.0
        };
        let cap = if jump {
            prev.2 + 1
        } else {
            prev.2
        };
        if !is_king_sq(prev.1) && to.row as int == king_row_of(side) {
            (g1, Square::King(side), cap, true)
        } else {
            (g1, prev.1, cap, prev.3)
        }
    }
}

/// The board after `side` plays `path`: the piece lands on the last square,
/// jumped pieces are removed, a man reaching the far row is crowned.
pub open spec fn board_after(g: CGrid, side: Side, path: Seq<Position>) -> CGrid {
    let r = run_path(g, side, path, (path.len() - 1) as nat);
    set_sq(r.0, path.last().row as int, path.last().col as int, r.1)
}

pub open spec fn path_in_board(path: Seq<Position>) -> bool {
    forall|i: int| 0 <= i < path.len() ==> pos_in(#[trigger] path[i])
}

fn execute_move(board: &mut CBoard, side: Side, mv: &CheckersMove) -> (r: (usize, bool))
    requires
        mv.path@.len() >= 1,
        path_in_board(mv.path@),
    ensures
        cgrid(*final(board)) == board_after(cgrid(*old(board)), side, mv.path@),
        r.0 == run_path(cgrid(*old(board)), side, mv.path@, (mv.path@.len() - 1) as nat).2,
        r.1 == run_path(cgrid(*old(board)), side, mv.path@, (mv.path@.len() - 1) as nat).3,
{
    let ghost g = cgrid(*board);
    let ghost path = mv.path@;
    let start = mv.path[0];
    assert(pos_in(path[0]));
    let mut piece = board[start.row as usize][start.col as usize];
    set_cell(board, start.row as usize, start.col as usize, Square::Empty);
    let mut captured: usize = 0;
    let mut promoted = false;
    let mut i: usize = 1;
    while i < mv.path.len()
        invariant
            path == mv.path@,
            path_in_board(path),
            1 <= i <= path.len(),
            captured < i,
            ({
                let rp = run_path(g, side, path, (i - 1) as nat);
                &&& cgrid(*board) == rp.0
                &&& piece == rp.1
                &&& captured == rp.2
                &&& promoted == rp.3
            }),
        decreases path.len() - i,
    {
        let from = mv.path[i - 1];
        let to = mv.path[i];
        assert(pos_in(path[i - 1]) && pos_in(path[i as int]));
        let dr: i32 = to.row as i32 - from.row as i32;
        let dc: i32 = to.col as i32 - from.col as i32;
        let adr: i32 = if dr < 0 {
            -dr
        } else {
            dr
        };
        let adc: i32 = if dc < 0 {
            -dc
        } else {
            dc
        };
        if adr == 2 && adc == 2 {
            let mr = (from.row as i32 + dr / 2) as usize;
            let mc = (from.col as i32 + dc / 2) as usize;
            assert(mr as int == (from.row + to.row) / 2);
            assert(mc as int == (from.col + to.col) / 2);
            set_cell(board, mr, mc, Square::Empty);
            captured = captured + 1;
        }
        if !piece.is_king() && to.row == king_row(side) {
            piece = Square::King(side);
            promoted = true;
        }
        i += 1;
    }
    let end = mv.path[mv.path.len() - 1];
    assert(pos_in(path[path.len() - 1]));
    set_cell(board, end.row as usize, end.col as usize, piece);
    (captured, promoted)
}

// ---------------------------------------------------------------------------
// Validation
// ---------------------------------------------------------------------------

/// The first problem among the first `k` squares of the path: off the board,
/// or a light square.
pub open spec fn squares_problem(path: Seq<Position>, k: nat) -> Option<Seq<char>>
    decreases k,
{
    if k == 0 {
        None
    } else {
        match squares_problem(path, (k - 1) as nat) {
            Some(e) => Some(e),
            None => {
                let p = path[k - 1];
                if p.row >= 8 || p.col >= 8 {
                    Some("position out of bounds"@)
                } else if !dark(p) {
                    Some("position not on a dark square"@)
                } else {
                    None
                }
            },
        }
    }
}

/// The walk state while checking hops: (board, piece, square, jumped yet,
/// promoted, squares jumped over).
pub type HopState = (CGrid, Square, Position, bool, bool, Seq<(u8, u8)>);

pub open spec fn sign(x: int) -> int {
    if x < 0 {
        -1
    } else if x > 0 {
        1
    } else {
        0
    }
}

/// Checking hop `i` (onto `path[i]`).
pub open spec fn hop_check(
    st: HopState,
    side: Side,
    path: Seq<Position>,
    i: int,
    caps: bool,
) -> Result<HopState, Seq<char>> {
    let (board, piece, cur, any_jump, promoted, jumped) = st;
    let to = path[i];
    let dr = to.row - cur.row;
    let dc = to.col - cur.col;
    if promoted {
        Err("chain must end after promotion"@)
    } else if iabs(dr) != iabs(dc) || (iabs(dr) != 1 && iabs(dr) != 2) {
        Err("hop must be a diagonal 1 or 2 square step"@)
    } else if board[to.row as int][to.col as int] != Square::Empty {
        Err("destination square not empty"@)
    } else if !dy_ok(piece, side, sign(dr)) {
        Err("illegal direction for this piece"@)
    } else {
        let crowned = !is_king_sq(piece) && to.row as int == king_row_of(side);
        let piece2 = if crowned {
            Square::King(side)
        } else {
            piece
        };
        let promoted2 = crowned;
        if iabs(dr) == 2 {
            let mr = cur.row + dr / 2;
            let mc = cur.col + dc / 2;
            if i >= 2 && !any_jump {
                Err("cannot mix steps and jumps"@)
            } else if side_of(board[mr][mc]) != Some(opp(side)) {
                Err("jump must be over an enemy piece"@)
            } else if jumped.contains((mr as u8, mc as u8)) {
                Err("cannot jump the same piece twice"@)
            } else {
                Ok(
                    (
                        set_sq(board, mr, mc, Square::Empty),
                        piece2,
                        to,
                        true,
                        promoted2,
                        jumped.push((mr as u8, mc as u8)),
                    ),
                )
            }
        } else {
            if i != 1 || path.len() != 2 {
                Err("cannot mix steps and jumps"@)
            } else if caps {
                Err("a capture is available and must be taken"@)
            } else {
                Ok((board, piece2, to, any_jump, promoted2, jumped))
            }
        }
    }
}

/// The walk after checking hops 1..=m.
pub open spec fn hops_through(
    g: CGrid,
    side: Side,
    path: Seq<Position>,
    caps: bool,
    m: nat,
) -> Result<HopState, Seq<char>>
    decreases m,
{
    if m == 0 {
        let s = path[0];
        Ok(
            (
                set_sq(g, s.row as int, s.col as int, Square::Empty),
                g[s.row as int][s.col as int],
                s,
                false,
                false,
                Seq::empty(),
            ),
        )
    } else {
        match hops_through(g, side, path, caps, (m - 1) as nat) {
            Err(e) => Err(e),
            Ok(st) => hop_check(st, side, path, m as int, caps),
        }
    }
}

/// Why `side` may not play `path` on `g` (`None`: the move is accepted).
pub open spec fn move_rejection(g: CGrid, side: Side, path: Seq<Position>) -> Option<Seq<char>> {
    if path.len() < 2 {
        Some("move path too short"@)
    } else if squares_problem(path, path.len()) is Some {
        squares_problem(path, path.len())
    } else if side_of(g[path[0].row as int][path[0].col as int]) != Some(side) {
        Some("no piece of yours on starting square"@)
    } else if any_capture(g, side) && !is_jump_hop(path[0], path[1]) {
        Some("a capture is available and must be taken"@)
    } else {
        match hops_through(g, side, path, any_capture(g, side), (path.len() - 1) as nat) {
            Err(e) => Some(e),
            Ok(st) => {
                let fin = set_sq(st.0, st.2.row as int, st.2.col as int, st.1);
                if st.3 && !st.4 && has_jump_from(fin, st.1, st.2) {
                    Some("must continue jumping"@)
                } else {
                    None
                }
            },
        }
    }
}


pub proof fn lemma_squares_ok(path: Seq<Position>, k: nat)
    requires
        k <= path.len(),
        squares_problem(path, k) is None,
    ensures
        forall|j: int| 0 <= j < k ==> pos_in(#[trigger] path[j]) && dark(path[j]),
    decreases k,
{
    if k > 0 {
        lemma_squares_ok(path, (k - 1) as nat);
    }
}

fn pair_in(v: &Vec<(u8, u8)>, p: (u8, u8)) -> (r: bool)
    ensures
        r == v@.contains(p),
{
    let mut i: usize = 0;
    while i < v.len()
        invariant
            i <= v@.len(),
            forall|j: int| 0 <= j < i ==> v@[j] != p,
        decreases v@.len() - i,
    {
        if v[i].0 == p.0 && v[i].1 == p.1 {
            return true;
        }
        i += 1;
    }
    false
}

fn abs_i32(x: i32) -> (r: i32)
    requires
        -1000 <= x <= 1000,
    ensures
        r == iabs(x as int),
{
    if x < 0 {
        -x
    } else {
        x
    }
}

proof fn lemma_squares_stays(path: Seq<Position>, k: nat, n: nat)
    requires
        k <= n,
        squares_problem(path, k) is Some,
    ensures
        squares_problem(path, n) == squares_problem(path, k),
    decreases n - k,
{
    if n > k {
        lemma_squares_stays(path, k, (n - 1) as nat);
    }
}

proof fn lemma_hops_err_stays(g: CGrid, side: Side, path: Seq<Position>, caps: bool, m: nat, n: nat)
    requires
        m <= n,
        hops_through(g, side, path, caps, m) is Err,
    ensures
        hops_through(g, side, path, caps, n) == hops_through(g, side, path, caps, m),
    decreases n - m,
{
    if n > m {
        lemma_hops_err_stays(g, side, path, caps, m, (n - 1) as nat);
    }
}

/// Checks hop `i` of the move and advances the walk (see `hop_check`).
fn check_hop(
    board: &mut CBoard,
    piece: &mut Square,
    cur: &mut Position,
    any_jump: &mut bool,
    promoted: &mut bool,
    jumped: &mut Vec<(u8, u8)>,
    side: Side,
    mv: &CheckersMove,
    i: usize,
    captures: bool,
) -> (r: Result<(), String>)
    requires
        1 <= i < mv.path@.len(),
        forall|j: int| 0 <= j < mv.path@.len() ==> pos_in(#[trigger] mv.path@[j]),
        pos_in(*old(cur)),
    ensures
        match r {
            Ok(()) => pos_in(*final(cur)) && hop_check(
                (cgrid(*old(board)), *old(piece), *old(cur), *old(any_jump), *old(promoted), old(jumped)@),
                side,
                mv.path@,
                i as int,
                captures,
            ) == Ok::<HopState, Seq<char>>(
                (cgrid(*final(board)), *final(piece), *final(cur), *final(any_jump), *final(promoted), final(jumped)@),
            ),
            Err(e) => hop_check(
                (cgrid(*old(board)), *old(piece), *old(cur), *old(any_jump), *old(promoted), old(jumped)@),
                side,
                mv.path@,
                i as int,
                captures,
            ) == Err::<HopState, Seq<char>>(e@),
        },
{
    if *promoted {
        return Err("chain must end after promotion".to_owned());
    }
    let to = mv.path[i];
    assert(pos_in(mv.path@[i as int]));
    let dr: i32 = to.row as i32 - cur.row as i32;
    let dc: i32 = to.col as i32 - cur.col as i32;
    let adr = abs_i32(dr);
    let adc = abs_i32(dc);
    if adr != adc || (adr != 1 && adr != 2) {
        return Err("hop must be a diagonal 1 or 2 square step".to_owned());
    }
    assert(cgrid(*board)[to.row as int][to.col as int] == board[to.row as int][to.col as int]);
    if board[to.row as usize][to.col as usize] != Square::Empty {
        return Err("destination square not empty".to_owned());
    }
    let sgn: i32 = if dr < 0 {
        -1
    } else {
        1
    };
    let allowed = piece.is_king() || sgn == forward(side);
    if !allowed {
        return Err("illegal direction for this piece".to_owned());
    }
    if adr == 2 {
        if i >= 2 && !*any_jump {
            return Err("cannot mix steps and jumps".to_owned());
        }
        let mr = (cur.row as i32 + dr / 2) as u8;
        let mc = (cur.col as i32 + dc / 2) as u8;
        let mid = board[mr as usize][mc as usize];
        assert(mid == cgrid(*board)[mr as int][mc as int]);
        let enemy = match mid.side() {
            Some(s) => s == side.opponent(),
            None => false,
        };
        if !enemy {
            return Err("jump must be over an enemy piece".to_owned());
        }
        if pair_in(jumped, (mr, mc)) {
            return Err("cannot jump the same piece twice".to_owned());
        }
        set_cell(board, mr as usize, mc as usize, Square::Empty);
        jumped.push((mr, mc));
        *any_jump = true;
    } else {
        if i != 1 || mv.path.len() != 2 {
            return Err("cannot mix steps and jumps".to_owned());
        }
        if captures {
            return Err("a capture is available and must be taken".to_owned());
        }
    }
    *cur = to;
    if !piece.is_king() && to.row == king_row(side) {
        *piece = Square::King(side);
        *promoted = true;
    }
    Ok(())
}

/// Checks a move of `side` (see `move_rejection`).
pub fn validate_move_inner(state: &CheckersState, side: Side, mv: &CheckersMove) -> (r: Result<
    (),
    String,
>)
    ensures
        match r {
            Ok(()) => move_rejection(cgrid(state.board), side, mv.path@).is_none(),
            Err(e) => move_rejection(cgrid(state.board), side, mv.path@) == Some(e@),
        },
{
    let ghost g = cgrid(state.board);
    let ghost path = mv.path@;
    if mv.path.len() < 2 {
        return Err("move path too short".to_owned());
    }
    let mut k: usize = 0;
    while k < mv.path.len()
        invariant
            path == mv.path@,
            path.len() >= 2,
            k <= path.len(),
            squares_problem(path, k as nat) is None,
        decreases path.len() - k,
    {
        let p = mv.path[k];
        if p.row >= 8 || p.col >= 8 {
            proof {
                lemma_squares_stays(path, (k + 1) as nat, path.len());
            }
            return Err("position out of bounds".to_owned());
        }
        if (p.row + p.col) % 2 != 1 {
            proof {
                lemma_squares_stays(path, (k + 1) as nat, path.len());
            }
            return Err("position not on a dark square".to_owned());
        }
        k += 1;
    }
    proof {
        lemma_squares_ok(path, path.len());
    }
    let start = mv.path[0];
    assert(pos_in(path[0]));
    let piece0 = state.board[start.row as usize][start.col as usize];
    assert(piece0 == g[start.row as int][start.col as int]);
    let mine = match piece0.side() {
        Some(s) => s == side,
        None => false,
    };
    if !mine {
        return Err("no piece of yours on starting square".to_owned());
    }
    let captures = any_capture_available(&state.board, side);
    assert(pos_in(path[1]));
    let first_dr: i32 = mv.path[1].row as i32 - mv.path[0].row as i32;
    let first_dc: i32 = mv.path[1].col as i32 - mv.path[0].col as i32;
    let is_jump_move = abs_i32(first_dr) == 2 && abs_i32(first_dc) == 2;
    if captures && !is_jump_move {
        return Err("a capture is available and must be taken".to_owned());
    }
    let mut board = state.board;
    set_cell(&mut board, start.row as usize, start.col as usize, Square::Empty);
    let mut piece = piece0;
    let mut cur = start;
    let mut any_jump = false;
    let mut promoted = false;
    let mut jumped: Vec<(u8, u8)> = Vec::new();
    let mut i: usize = 1;
    while i < mv.path.len()
        invariant
            path == mv.path@,
            g == cgrid(state.board),
            2 <= path.len(),
            1 <= i <= path.len(),
            forall|j: int| 0 <= j < path.len() ==> pos_in(#[trigger] path[j]) && dark(path[j]),
            squares_problem(path, path.len()) is None,
            side_of(g[path[0].row as int][path[0].col as int]) == Some(side),
            !(captures && !is_jump_hop(path[0], path[1])),
            pos_in(cur),
            captures == any_capture(g, side),
            hops_through(g, side, path, captures, (i - 1) as nat) == Ok::<HopState, Seq<char>>(
                (cgrid(board), piece, cur, any_jump, promoted, jumped@),
            ),
        decreases path.len() - i,
    {
        match check_hop(
            &mut board,
            &mut piece,
            &mut cur,
            &mut any_jump,
            &mut promoted,
            &mut jumped,
            side,
            mv,
            i,
            captures,
        ) {
            Ok(()) => {},
            Err(e) => {
                proof {
                    lemma_hops_err_stays(g, side, path, captures, i as nat, (path.len() - 1) as nat);
                }
                return Err(e);
            },
        }
        i += 1;
    }
    set_cell(&mut board, cur.row as usize, cur.col as usize, piece);
    if any_jump && !promoted && piece_has_jump_from(&board, piece, cur) {
        return Err("must continue jumping".to_owned());
    }
    Ok(())
}


// ---------------------------------------------------------------------------
// Shape of generated moves
// ---------------------------------------------------------------------------

/// A path of at least two squares, all on the board.
pub open spec fn path_ok(q: Seq<Position>) -> bool {
    q.len() >= 2 && path_in_board(q)
}

pub open spec fn all_paths_ok(s: Seq<Seq<Position>>) -> bool {
    forall|i: int| 0 <= i < s.len() ==> path_ok(#[trigger] s[i])
}

proof fn lemma_all_ok_add(a: Seq<Seq<Position>>, b: Seq<Seq<Position>>)
    requires
        all_paths_ok(a),
        all_paths_ok(b),
    ensures
        all_paths_ok(a + b),
{
    assert forall|i: int| 0 <= i < (a + b).len() implies path_ok(#[trigger] (a + b)[i]) by {
        if i < a.len() {
            assert((a + b)[i] == a[i]);
        } else {
            assert((a + b)[i] == b[i - a.len()]);
        }
    }
}

proof fn lemma_jumps_ok(g: CGrid, piece: Square, side: Side, path: Seq<Position>, fuel: nat)
    requires
        path.len() >= 1,
        path_in_board(path),
    ensures
        all_paths_ok(jumps(g, piece, side, path, fuel)),
    decreases fuel, 1nat,
{
    lemma_jumps_unfold(g, piece, side, path, fuel);
    lemma_branch_ok(g, piece, side, path, -1, -1, fuel);
    lemma_branch_ok(g, piece, side, path, -1, 1, fuel);
    lemma_branch_ok(g, piece, side, path, 1, -1, fuel);
    lemma_branch_ok(g, piece, side, path, 1, 1, fuel);
    lemma_branch_ok(g, piece, side, path, fwd(side), -1, fuel);
    lemma_branch_ok(g, piece, side, path, fwd(side), 1, fuel);
    let b1 = jump_branch(g, piece, side, path, -1, -1, fuel);
    let b2 = jump_branch(g, piece, side, path, -1, 1, fuel);
    let b3 = jump_branch(g, piece, side, path, 1, -1, fuel);
    let b4 = jump_branch(g, piece, side, path, 1, 1, fuel);
    lemma_all_ok_add(b1, b2);
    lemma_all_ok_add(b1 + b2, b3);
    lemma_all_ok_add(b1 + b2 + b3, b4);
    lemma_all_ok_add(
        jump_branch(g, piece, side, path, fwd(side), -1, fuel),
        jump_branch(g, piece, side, path, fwd(side), 1, fuel),
    );
}

proof fn lemma_branch_ok(
    g: CGrid,
    piece: Square,
    side: Side,
    path: Seq<Position>,
    dy: int,
    dx: int,
    fuel: nat,
)
    requires
        path.len() >= 1,
        path_in_board(path),
    ensures
        all_paths_ok(jump_branch(g, piece, side, path, dy, dx, fuel)),
    decreases fuel, 0nat,
{
    let r = path.last().row as int;
    let c = path.last().col as int;
    if fuel == 0 || !jump_at(g, side, r, c, dy, dx) {
        lemma_branch_none(g, piece, side, path, dy, dx, fuel);
    } else {
        lemma_branch_taken(g, piece, side, path, dy, dx, fuel);
        let land = at(r + 2 * dy, c + 2 * dx);
        let p1 = path.push(land);
        assert(path_in_board(p1)) by {
            assert forall|i: int| 0 <= i < p1.len() implies pos_in(#[trigger] p1[i]) by {
                if i < path.len() {
                    assert(p1[i] == path[i]);
                }
            }
        }
        let promoted = !is_king_sq(piece) && land.row as int == king_row_of(side);
        let np = if promoted {
            Square::King(side)
        } else {
            piece
        };
        lemma_jumps_ok(
            set_sq(set_sq(g, r + dy, c + dx, Square::Empty), r + 2 * dy, c + 2 * dx, np),
            np,
            side,
            p1,
            (fuel - 1) as nat,
        );
    }
}

proof fn lemma_legal_ok(g: CGrid, side: Side, caps: bool, n: nat)
    requires
        n <= 8,
    ensures
        all_paths_ok(moves_upto(g, side, caps, n)),
    decreases n,
{
    if n > 0 {
        lemma_legal_ok(g, side, caps, (n - 1) as nat);
        lemma_row_ok(g, side, caps, n - 1, 8);
        lemma_all_ok_add(moves_upto(g, side, caps, (n - 1) as nat), row_moves(g, side, caps, n - 1, 8));
    }
}

#[verifier::spinoff_prover]
#[verifier::rlimit(40)]
proof fn lemma_row_ok(g: CGrid, side: Side, caps: bool, r: int, n: nat)
    requires
        0 <= r < 8,
        n <= 8,
    ensures
        all_paths_ok(row_moves(g, side, caps, r, n)),
    decreases n,
{
    if n > 0 {
        lemma_row_ok(g, side, caps, r, (n - 1) as nat);
        let c = n - 1;
        let sm = square_moves(g, side, caps, r, c);
        if side_of(g[r][c]) == Some(side) {
            if caps {
                lemma_jumps_ok(set_sq(g, r, c, Square::Empty), g[r][c], side, seq![at(r, c)], 64);
            } else {
                assert(all_paths_ok(step_moves(g, g[r][c], side, at(r, c))));
            }
        }
        lemma_all_ok_add(row_moves(g, side, caps, r, (n - 1) as nat), sm);
    }
}

// ---------------------------------------------------------------------------
// The engine
// ---------------------------------------------------------------------------

/// The starting layout: men on the dark squares of rows 0-2 (Red) and 5-7
/// (Black).
pub open spec fn start_square(r: int, c: int) -> Square {
    if (r + c) % 2 == 1 && r < 3 {
        Square::Man(Side::Red)
    } else if (r + c) % 2 == 1 && r >= 5 {
        Square::Man(Side::Black)
    } else {
        Square::Empty
    }
}

/// Why `player` may not play `path` now (`None`: accepted).
pub open spec fn checkers_rejection(st: CheckersState, player: PlayerId, path: Seq<Position>) -> Option<
    Seq<char>,
> {
    if st.players[st.current_turn as int] != player {
        Some("not your turn"@)
    } else {
        move_rejection(cgrid(st.board), turn_side(st.current_turn as int), path)
    }
}

/// Outcome of a position: a draw after `DRAW_PLY_LIMIT` plies without
/// progress; a loss for the side to move when it has no legal move.
pub open spec fn checkers_outcome(st: CheckersState) -> Option<GameOutcome> {
    if st.plies_since_progress >= DRAW_PLY_LIMIT {
        Some(GameOutcome::Draw)
    } else if legal_paths(st).len() == 0 {
        Some(GameOutcome::Win(st.players[1 - st.current_turn]))
    } else {
        None
    }
}

/// `next` is `st` after the side to move played `path`.
pub open spec fn applied(st: CheckersState, path: Seq<Position>, next: CheckersState) -> bool {
    let side = turn_side(st.current_turn as int);
    let run = run_path(cgrid(st.board), side, path, (path.len() - 1) as nat);
    &&& cgrid(next.board) == board_after(cgrid(st.board), side, path)
    &&& next.players == st.players
    &&& next.current_turn == 1 - st.current_turn
    &&& next.move_count == st.move_count + 1
    &&& next.plies_since_progress == if run.2 > 0 || run.3 {
        0
    } else {
        st.plies_since_progress + 1
    }
}

pub open spec fn can_apply(st: CheckersState, path: Seq<Position>) -> bool {
    &&& st.wf()
    &&& path.len() >= 1
    &&& path_in_board(path)
    &&& st.move_count < u32::MAX
    &&& st.plies_since_progress < u32::MAX
}

impl Checkers {
    /// The starting position; Black (players[0]) moves first.
    pub fn initial_state(players: &[PlayerId], _settings: &GameSettings) -> (st: CheckersState)
        requires
            players@.len() >= 2,
        ensures
            st.wf(),
            forall|r: int, c: int| on8(r, c) ==> #[trigger] cgrid(st.board)[r][c] == start_square(r, c),
            st.players == [players@[0], players@[1]],
            st.current_turn == 0,
            st.move_count == 0,
            st.plies_since_progress == 0,
    {
        let mut board: CBoard = [[Square::Empty; 8]; 8];
        let mut r: usize = 0;
        while r < 8
            invariant
                r <= 8,
                forall|r2: int, c2: int|
                    0 <= r2 < r && 0 <= c2 < 8 ==> #[trigger] cgrid(board)[r2][c2] == start_square(r2, c2),
                forall|r2: int, c2: int|
                    r <= r2 < 8 && 0 <= c2 < 8 ==> #[trigger] cgrid(board)[r2][c2] == Square::Empty,
            decreases 8 - r,
        {
            let mut c: usize = 0;
            while c < 8
                invariant
                    r < 8,
                    c <= 8,
                    forall|r2: int, c2: int|
                        (0 <= r2 < r && 0 <= c2 < 8) || (r2 == r && 0 <= c2 < c) ==> #[trigger] cgrid(
                            board,
                        )[r2][c2] == start_square(r2, c2),
                    forall|r2: int, c2: int|
                        (r < r2 < 8 && 0 <= c2 < 8) || (r2 == r && c <= c2 < 8) ==> #[trigger] cgrid(
                            board,
                        )[r2][c2] == Square::Empty,
                decreases 8 - c,
            {
                let v = if (r + c) % 2 == 1 && r < 3 {
                    Square::Man(Side::Red)
                } else if (r + c) % 2 == 1 && r >= 5 {
                    Square::Man(Side::Black)
                } else {
                    Square::Empty
                };
                set_cell(&mut board, r, c, v);
                c += 1;
            }
            r += 1;
        }
        CheckersState {
            board,
            players: [players[0], players[1]],
            current_turn: 0,
            move_count: 0,
            plies_since_progress: 0,
        }
    }

    /// Checks a move by `player` (see `checkers_rejection`).
    pub fn validate_move(state: &CheckersState, player: PlayerId, mv: &CheckersMove) -> (r: Result<
        (),
        String,
    >)
        requires
            state.wf(),
        ensures
            match r {
                Ok(()) => checkers_rejection(*state, player, mv.path@).is_none(),
                Err(e) => checkers_rejection(*state, player, mv.path@) == Some(e@),
            },
    {
        if state.players[state.current_turn] != player {
            return Err("not your turn".to_owned());
        }
        let side = if state.current_turn == 0 {
            Side::Black
        } else {
            Side::Red
        };
        validate_move_inner(state, side, mv)
    }

    /// Plays `mv` for the side to move: captures, promotion, the no-progress
    /// counter and the turn.
    pub fn apply_move(state: &mut CheckersState, _player: PlayerId, mv: &CheckersMove)
        requires
            can_apply(*old(state), mv.path@),
        ensures
            applied(*old(state), mv.path@, *final(state)),
            final(state).wf(),
    {
        let side = if state.current_turn == 0 {
            Side::Black
        } else {
            Side::Red
        };
        let (captured, promoted) = execute_move(&mut state.board, side, mv);
        state.move_count = state.move_count + 1;
        if captured > 0 || promoted {
            state.plies_since_progress = 0;
        } else {
            state.plies_since_progress = state.plies_since_progress + 1;
        }
        state.current_turn = 1 - state.current_turn;
    }

    /// The outcome if the game is over (see `checkers_outcome`).
    pub fn is_terminal(state: &CheckersState) -> (r: Option<GameOutcome>)
        requires
            state.wf(),
        ensures
            r == checkers_outcome(*state),
    {
        if state.plies_since_progress >= DRAW_PLY_LIMIT {
            return Some(GameOutcome::Draw);
        }
        let moves = legal_moves(state);
        if moves.len() == 0 {
            assert(paths_of(moves@).len() == 0);
            let winner = state.players[1 - state.current_turn];
            return Some(GameOutcome::Win(winner));
        }
        assert(paths_of(moves@).len() == moves@.len());
        None
    }

    /// The player whose turn it is.
    pub fn current_player(state: &CheckersState) -> (p: PlayerId)
        requires
            state.wf(),
        ensures
            p == state.players[state.current_turn as int],
    {
        state.players[state.current_turn]
    }
}


// ---------------------------------------------------------------------------
// Bot
// ---------------------------------------------------------------------------

pub open spec fn edge_bonus(c: int) -> int {
    if c == 0 || c == 7 {
        5
    } else {
        0
    }
}

/// What a square is worth to Black: men 100, kings 150, men still on their
/// home row 10, pieces on a side edge 5; Red's pieces count negatively.
pub open spec fn square_value(s: Square, r: int, c: int) -> int {
    match s {
        Square::Man(Side::Black) => 100 + (if r == 7 {
            10int
        } else {
            0int
        }) + edge_bonus(c),
        Square::Man(Side::Red) => -100 - (if r == 0 {
            10int
        } else {
            0int
        }) - edge_bonus(c),
        Square::King(Side::Black) => 150 + edge_bonus(c),
        Square::King(Side::Red) => -150 - edge_bonus(c),
        Square::Empty => 0,
    }
}

pub open spec fn row_value(g: CGrid, r: int, n: nat) -> int
    decreases n,
{
    if n == 0 {
        0
    } else {
        row_value(g, r, (n - 1) as nat) + square_value(g[r][n - 1], r, n - 1)
    }
}

/// The static evaluation of the first `n` rows (Black positive).
pub open spec fn board_value(g: CGrid, n: nat) -> int
    decreases n,
{
    if n == 0 {
        0
    } else {
        board_value(g, (n - 1) as nat) + row_value(g, n - 1, 8)
    }
}

fn square_worth(s: Square, r: usize, c: usize) -> (v: i32)
    ensures
        v == square_value(s, r as int, c as int),
{
    let edge: i32 = if c == 0 || c == 7 {
        5
    } else {
        0
    };
    match s {
        Square::Man(Side::Black) => 100 + (if r == 7 {
            10
        } else {
            0
        }) + edge,
        Square::Man(Side::Red) => -100 - (if r == 0 {
            10
        } else {
            0
        }) - edge,
        Square::King(Side::Black) => 150 + edge,
        Square::King(Side::Red) => -150 - edge,
        Square::Empty => 0,
    }
}

/// Static evaluation of a position from Black's point of view.
pub fn evaluate(state: &CheckersState) -> (v: i32)
    ensures
        v == board_value(cgrid(state.board), 8),
        -11000 <= v <= 11000,
{
    let ghost g = cgrid(state.board);
    let mut total: i32 = 0;
    let mut r: usize = 0;
    while r < 8
        invariant
            g == cgrid(state.board),
            r <= 8,
            total == board_value(g, r as nat),
            -1320 * (r as int) <= total <= 1320 * (r as int),
        decreases 8 - r,
    {
        let mut row: i32 = 0;
        let mut c: usize = 0;
        while c < 8
            invariant
                g == cgrid(state.board),
                r < 8,
                c <= 8,
                row == row_value(g, r as int, c as nat),
                -165 * (c as int) <= row <= 165 * (c as int),
                total == board_value(g, r as nat),
                -1320 * (r as int) <= total <= 1320 * (r as int),
            decreases 8 - c,
        {
            let s = state.board[r][c];
            assert(s == g[r as int][c as int]);
            row = row + square_worth(s, r, c);
            c += 1;
        }
        assert(-1320 <= row <= 1320);
        assert(-1320 * (r as int) <= total <= 1320 * (r as int));
        assert(r < 8);
        total = total + row;
        r += 1;
    }
    total
}

/// Search bounds for a position reached from `st` within `depth` more plies.
pub open spec fn search_ok(st: CheckersState, depth: int) -> bool {
    &&& st.wf()
    &&& st.move_count + depth < u32::MAX
    &&& st.plies_since_progress + depth < u32::MAX
}

/// The search score of a finished game with `depth` plies left: a win is
/// worth 100000 plus the depth to its winner's side (Black positive), a
/// draw 0.
pub open spec fn win_score(o: GameOutcome, players: [PlayerId; 2], depth: int) -> int {
    match o {
        GameOutcome::Win(pid) => if pid == players[0] {
            100_000 + depth
        } else {
            -(100_000 + depth)
        },
        GameOutcome::Draw => 0,
    }
}

/// `x` brought into the window [lo, hi].
pub open spec fn clamp(x: int, lo: int, hi: int) -> int {
    if x < lo {
        lo
    } else if x > hi {
        hi
    } else {
        x
    }
}

/// What the rules read of a state.
pub type PositionView = (CGrid, [PlayerId; 2], usize, u32, u32);

pub open spec fn position_view(s: CheckersState) -> PositionView {
    (cgrid(s.board), s.players, s.current_turn, s.move_count, s.plies_since_progress)
}

/// `t` is what playing `path` makes of some state whose view is `v`.
pub open spec fn reached_by(v: PositionView, path: Seq<Position>, t: CheckersState) -> bool {
    exists|u: CheckersState| position_view(u) == v && #[trigger] applied(u, path, t)
}

/// The position after the side to move plays `path` in `s`.
pub open spec fn after(s: CheckersState, path: Seq<Position>) -> CheckersState {
    choose|t: CheckersState| reached_by(position_view(s), path, t)
}

/// The minimax value of `s` searched `depth` plies deep, Black maximising
/// when `maximizing` holds: a finished game scores `win_score`, a leaf its
/// material balance, a side without moves loses, and an inner position takes
/// the best of its children's values for the side to choose.
pub open spec fn search_value(s: CheckersState, depth: nat, maximizing: bool) -> int
    decreases depth, 1nat, 0nat,
{
    match checkers_outcome(s) {
        Some(o) => win_score(o, s.players, depth as int),
        None => if depth == 0 {
            board_value(cgrid(s.board), 8)
        } else if legal_paths(s).len() == 0 {
            if s.current_turn == 0 {
                -(100_000 + depth as int)
            } else {
                100_000 + depth as int
            }
        } else {
            best_of(s, legal_paths(s).len(), depth, maximizing)
        },
    }
}

/// The best value, for the side choosing at `s`, among its first `k` legal
/// moves (at least one), each searched `depth - 1` plies deeper.
pub open spec fn best_of(s: CheckersState, k: nat, depth: nat, maximizing: bool) -> int
    decreases depth, 0nat, k,
{
    if depth == 0 {
        0
    } else {
        let v = search_value(after(s, legal_paths(s)[k - 1]), (depth - 1) as nat, !maximizing);
        if k <= 1 {
            v
        } else {
            let prev = best_of(s, (k - 1) as nat, depth, maximizing);
            if maximizing {
                if v > prev {
                    v
                } else {
                    prev
                }
            } else {
                if v < prev {
                    v
                } else {
                    prev
                }
            }
        }
    }
}

proof fn lemma_applied_same(s: CheckersState, u: CheckersState, path: Seq<Position>, a: CheckersState, b: CheckersState)
    requires
        position_view(s) == position_view(u),
        applied(s, path, a),
        applied(u, path, b),
    ensures
        position_view(a) == position_view(b),
{
}

/// A state reached by playing `path` agrees with `after(s, path)`.
proof fn lemma_after_is(s: CheckersState, path: Seq<Position>, t: CheckersState)
    requires
        applied(s, path, t),
    ensures
        position_view(after(s, path)) == position_view(t),
{
    assert(reached_by(position_view(s), path, t));
    let a = after(s, path);
    let u = choose|u: CheckersState| position_view(u) == position_view(s) && #[trigger] applied(u, path, a);
    lemma_applied_same(u, s, path, a, t);
}

/// Positions that agree have the same value.
proof fn lemma_value_same(a: CheckersState, b: CheckersState, depth: nat, maximizing: bool)
    requires
        position_view(a) == position_view(b),
    ensures
        search_value(a, depth, maximizing) == search_value(b, depth, maximizing),
    decreases depth, 1nat, 0nat,
{
    assert(checkers_outcome(a) == checkers_outcome(b));
    assert(legal_paths(a) == legal_paths(b));
    if checkers_outcome(a) is None && depth > 0 && legal_paths(a).len() > 0 {
        lemma_best_same(a, b, legal_paths(a).len(), depth, maximizing);
    }
}

proof fn lemma_best_same(a: CheckersState, b: CheckersState, k: nat, depth: nat, maximizing: bool)
    requires
        position_view(a) == position_view(b),
    ensures
        best_of(a, k, depth, maximizing) == best_of(b, k, depth, maximizing),
    decreases depth, 0nat, k,
{
    if depth > 0 {
        assert(legal_paths(a) == legal_paths(b));
        if k > 1 {
            lemma_best_same(a, b, (k - 1) as nat, depth, maximizing);
        }
    }
}

/// Looking at more moves never makes the best value worse for the chooser.
proof fn lemma_best_monotone(s: CheckersState, k: nat, n: nat, depth: nat, maximizing: bool)
    requires
        1 <= k <= n,
    ensures
        maximizing ==> best_of(s, n, depth, maximizing) >= best_of(s, k, depth, maximizing),
        !maximizing ==> best_of(s, n, depth, maximizing) <= best_of(s, k, depth, maximizing),
    decreases n,
{
    if n > k {
        lemma_best_monotone(s, k, (n - 1) as nat, depth, maximizing);
    }
}

/// Alpha-beta search to `depth` plies (Black maximises); wins score
/// 100000 plus the remaining depth. Within the window the result is the
/// minimax value; outside it, it is on the same side of the window.
fn alpha_beta(state: &CheckersState, depth: u8, alpha: i32, beta: i32, maximizing: bool) -> (v: i32)
    requires
        search_ok(*state, depth as int),
        depth <= 100,
        alpha < beta,
    ensures
        -(100_000 + depth) <= v <= 100_000 + depth,
        checkers_outcome(*state) matches Some(o) ==> v == win_score(o, state.players, depth as int),
        checkers_outcome(*state) is None && depth == 0 ==> v == board_value(cgrid(state.board), 8),
        clamp(v as int, alpha as int, beta as int) == clamp(
            search_value(*state, depth as nat, maximizing),
            alpha as int,
            beta as int,
        ),
    decreases depth,
{
    match Checkers::is_terminal(state) {
        Some(outcome) => {
            return match outcome {
                GameOutcome::Win(pid) => if pid == state.players[0] {
                    100_000 + depth as i32
                } else {
                    -(100_000 + depth as i32)
                },
                GameOutcome::Draw => 0,
            };
        },
        None => {},
    }
    if depth == 0 {
        return evaluate(state);
    }
    let moves = legal_moves(state);
    if moves.len() == 0 {
        return if state.current_turn == 0 {
            -(100_000 + depth as i32)
        } else {
            100_000 + depth as i32
        };
    }
    proof {
        let g = cgrid(state.board);
        let side = turn_side(state.current_turn as int);
        lemma_legal_ok(g, side, any_capture(g, side), 8);
    }
    let ghost a0 = alpha as int;
    let ghost b0 = beta as int;
    let ghost n = moves@.len();
    let ghost d = depth as nat;
    let mut alpha = alpha;
    let mut beta = beta;
    let mut value: i32 = if maximizing {
        i32::MIN
    } else {
        i32::MAX
    };
    let mut i: usize = 0;
    while i < moves.len()
        invariant_except_break
            alpha < beta,
            i > 0 && maximizing ==> {
                &&& alpha as int == (if value as int > a0 { value as int } else { a0 })
                &&& best_of(*state, i as nat, d, maximizing) < b0
                &&& (if best_of(*state, i as nat, d, maximizing) > a0 {
                    best_of(*state, i as nat, d, maximizing)
                } else {
                    a0
                }) == alpha as int
            },
            i > 0 && !maximizing ==> {
                &&& beta as int == (if (value as int) < b0 { value as int } else { b0 })
                &&& best_of(*state, i as nat, d, maximizing) > a0
                &&& (if best_of(*state, i as nat, d, maximizing) < b0 {
                    best_of(*state, i as nat, d, maximizing)
                } else {
                    b0
                }) == beta as int
            },
        invariant
            search_ok(*state, depth as int),
            1 <= depth <= 100,
            d == depth as nat,
            all_paths_ok(paths_of(moves@)),
            paths_of(moves@) == legal_paths(*state),
            n == moves@.len(),
            checkers_outcome(*state) is None,
            i <= moves@.len(),
            moves@.len() > 0,
            i > 0 ==> -(100_000 + depth) <= value <= 100_000 + depth,
            i == 0 ==> value == if maximizing {
                i32::MIN
            } else {
                i32::MAX
            },
            maximizing ==> beta == b0,
            !maximizing ==> alpha == a0,
            i == 0 ==> alpha == a0 && beta == b0,
        ensures
            -(100_000 + depth) <= value <= 100_000 + depth,
            clamp(value as int, a0, b0) == clamp(best_of(*state, n, d, maximizing), a0, b0),
        decreases moves@.len() - i,
    {
        assert(path_ok(paths_of(moves@)[i as int]));
        let mut next = *state;
        Checkers::apply_move(&mut next, state.players[state.current_turn], &moves[i]);
        let score = alpha_beta(&next, depth - 1, alpha, beta, !maximizing);
        let ghost cv = search_value(next, (d - 1) as nat, !maximizing);
        proof {
            assert(legal_paths(*state)[i as int] == moves@[i as int].path@);
            lemma_after_is(*state, moves@[i as int].path@, next);
            lemma_value_same(after(*state, moves@[i as int].path@), next, (d - 1) as nat, !maximizing);
            assert(best_of(*state, (i + 1) as nat, d, maximizing) == if i == 0 {
                cv
            } else if maximizing {
                if cv > best_of(*state, i as nat, d, maximizing) {
                    cv
                } else {
                    best_of(*state, i as nat, d, maximizing)
                }
            } else {
                if cv < best_of(*state, i as nat, d, maximizing) {
                    cv
                } else {
                    best_of(*state, i as nat, d, maximizing)
                }
            });
        }
        if maximizing {
            if score > value || i == 0 {
                value = score;
            }
            if score > alpha {
                alpha = score;
            }
        } else {
            if score < value || i == 0 {
                value = score;
            }
            if score < beta {
                beta = score;
            }
        }
        i += 1;
        if alpha >= beta {
            proof {
                lemma_best_monotone(*state, i as nat, n, d, maximizing);
            }
            break;
        }
    }
    value
}

fn copy_move(m: &CheckersMove) -> (r: CheckersMove)
    ensures
        r.path@ == m.path@,
{
    CheckersMove { path: copy_path(&m.path) }
}

/// A uniformly random legal move.
fn random_move(state: &CheckersState) -> (mv: CheckersMove)
    requires
        state.wf(),
        legal_paths(*state).len() > 0,
    ensures
        legal_paths(*state).contains(mv.path@),
{
    let moves = legal_moves(state);
    assert(paths_of(moves@).len() == moves@.len());
    match choose_item(moves.as_slice()) {
        Some(m) => {
            proof {
                let k = choose|k: int| 0 <= k < moves@.len() && moves@[k] == *m;
                assert(paths_of(moves@)[k] == m.path@);
            }
            copy_move(m)
        },
        None => {
            assert(false);
            copy_move(&moves[0])
        },
    }
}

/// The search score of playing `path` in `s`: the minimax value, six plies
/// deep, of the position it leads to (Black maximising).
pub open spec fn root_score(s: CheckersState, path: Seq<Position>) -> int {
    search_value(after(s, path), 6, !(s.current_turn == 0))
}

/// `a` scores strictly better than `b` for the side to move in `s`.
pub open spec fn scores_better(s: CheckersState, a: int, b: int) -> bool {
    if s.current_turn == 0 {
        a > b
    } else {
        a < b
    }
}

/// `path` is the `k`-th legal move of `s` and the first one, in generation
/// order, with the best search score for the side to move.
pub open spec fn first_best(s: CheckersState, k: int, path: Seq<Position>) -> bool {
    &&& 0 <= k < legal_paths(s).len()
    &&& legal_paths(s)[k] == path
    &&& forall|j: int|
        0 <= j < legal_paths(s).len() ==> !scores_better(
            s,
            root_score(s, #[trigger] legal_paths(s)[j]),
            root_score(s, path),
        )
    &&& forall|j: int|
        0 <= j < k ==> scores_better(s, root_score(s, path), root_score(s, #[trigger] legal_paths(s)[j]))
}

/// The move with the best six-ply alpha-beta score for the side to move
/// (first best in generation order).
fn best_move(state: &CheckersState) -> (mv: CheckersMove)
    requires
        search_ok(*state, 7),
        legal_paths(*state).len() > 0,
    ensures
        exists|k: int| first_best(*state, k, mv.path@),
{
    let moves = legal_moves(state);
    assert(paths_of(moves@).len() == moves@.len());
    proof {
        let g = cgrid(state.board);
        let side = turn_side(state.current_turn as int);
        lemma_legal_ok(g, side, any_capture(g, side), 8);
    }
    let maximizing = state.current_turn == 0;
    let mut best_score: i32 = if maximizing {
        i32::MIN
    } else {
        i32::MAX
    };
    let mut best: usize = 0;
    let mut i: usize = 0;
    while i < moves.len()
        invariant
            search_ok(*state, 7),
            all_paths_ok(paths_of(moves@)),
            paths_of(moves@) == legal_paths(*state),
            maximizing == (state.current_turn == 0),
            i <= moves@.len(),
            best < moves@.len(),
            i == 0 ==> best == 0 && best_score == if maximizing {
                i32::MIN
            } else {
                i32::MAX
            },
            i > 0 ==> best < i && best_score as int == root_score(*state, legal_paths(*state)[best as int]),
            forall|j: int|
                0 <= j < i ==> !scores_better(
                    *state,
                    root_score(*state, #[trigger] legal_paths(*state)[j]),
                    best_score as int,
                ),
            forall|j: int|
                0 <= j < best ==> scores_better(
                    *state,
                    best_score as int,
                    root_score(*state, #[trigger] legal_paths(*state)[j]),
                ),
        decreases moves@.len() - i,
    {
        assert(path_ok(paths_of(moves@)[i as int]));
        let mut next = *state;
        Checkers::apply_move(&mut next, state.players[state.current_turn], &moves[i]);
        let score = alpha_beta(&next, 6, i32::MIN, i32::MAX, !maximizing);
        proof {
            assert(legal_paths(*state)[i as int] == moves@[i as int].path@);
            lemma_after_is(*state, moves@[i as int].path@, next);
            lemma_value_same(after(*state, moves@[i as int].path@), next, 6, !maximizing);
            assert(score as int == root_score(*state, legal_paths(*state)[i as int]));
        }
        let better = if maximizing {
            score > best_score
        } else {
            score < best_score
        };
        if better {
            best_score = score;
            best = i;
        }
        i += 1;
    }
    assert(paths_of(moves@)[best as int] == moves@[best as int].path@);
    let mv = copy_move(&moves[best]);
    assert(first_best(*state, best as int, mv.path@));
    mv
}

/// The bot's move: random (easy) or alpha-beta (hard); always a legal move,
/// and for the hard bot the first legal move with the best search score.
pub fn bot_move(state: &CheckersState, difficulty: Difficulty) -> (mv: CheckersMove)
    requires
        search_ok(*state, 7),
        legal_paths(*state).len() > 0,
    ensures
        legal_paths(*state).contains(mv.path@),
        difficulty == Difficulty::Hard ==> exists|k: int| first_best(*state, k, mv.path@),
{
    match difficulty {
        Difficulty::Easy => random_move(state),
        Difficulty::Hard => {
            let mv = best_move(state);
            proof {
                let k = choose|k: int| first_best(*state, k, mv.path@);
                assert(legal_paths(*state)[k] == mv.path@);
            }
            mv
        },
    }
}

// ---------------------------------------------------------------------------
// Validation against generation, when no capture is available
// ---------------------------------------------------------------------------

/// Every piece stands on a dark square.
pub open spec fn pieces_dark(g: CGrid) -> bool {
    forall|r: int, c: int| on8(r, c) && side_of(#[trigger] g[r][c]) is Some ==> (r + c) % 2 == 1
}

/// `path` is a simple step of a piece of `side`: one square diagonally, in
/// a direction the piece may move, onto an empty square of the board.
pub open spec fn simple_step(g: CGrid, side: Side, path: Seq<Position>) -> bool {
    let r = path[0].row as int;
    let c = path[0].col as int;
    let dr = path[1].row - r;
    let dc = path[1].col - c;
    &&& path.len() == 2
    &&& on8(r, c)
    &&& side_of(g[r][c]) == Some(side)
    &&& iabs(dr) == 1
    &&& iabs(dc) == 1
    &&& dy_ok(g[r][c], side, dr)
    &&& on8(path[1].row as int, path[1].col as int)
    &&& g[path[1].row as int][path[1].col as int] == Square::Empty
}

proof fn lemma_concat_contains(a: Seq<Seq<Position>>, b: Seq<Seq<Position>>, x: Seq<Position>)
    ensures
        (a + b).contains(x) <==> (a.contains(x) || b.contains(x)),
{
    if a.contains(x) {
        let k = choose|k: int| 0 <= k < a.len() && a[k] == x;
        assert((a + b)[k] == x);
    }
    if b.contains(x) {
        let k = choose|k: int| 0 <= k < b.len() && b[k] == x;
        assert((a + b)[a.len() + k] == x);
    }
    if (a + b).contains(x) {
        let k = choose|k: int| 0 <= k < (a + b).len() && (a + b)[k] == x;
        if k < a.len() {
            assert(a[k] == x);
        } else {
            assert(b[k - a.len()] == x);
        }
    }
}

/// `p` is a step of `piece` (of `side`) from `pos` by (dy, dx).
pub open spec fn step_by(g: CGrid, pos: Position, dy: int, dx: int, p: Seq<Position>) -> bool {
    &&& on8(pos.row + dy, pos.col + dx)
    &&& g[pos.row + dy][pos.col + dx] == Square::Empty
    &&& p.len() == 2
    &&& p[0] == pos
    &&& p[1] == at(pos.row + dy, pos.col + dx)
}

proof fn lemma_one_step_contains(g: CGrid, pos: Position, dy: int, dx: int, p: Seq<Position>)
    ensures
        one_step(g, pos, dy, dx).contains(p) <==> step_by(g, pos, dy, dx, p),
{
    let nr = pos.row + dy;
    let nc = pos.col + dx;
    if on8(nr, nc) && g[nr][nc] == Square::Empty {
        assert(one_step(g, pos, dy, dx)[0] == seq![pos, at(nr, nc)]);
        if step_by(g, pos, dy, dx, p) {
            assert(p =~= seq![pos, at(nr, nc)]);
        }
    }
}

proof fn lemma_step_moves_contains(g: CGrid, piece: Square, side: Side, pos: Position, p: Seq<Position>)
    ensures
        step_moves(g, piece, side, pos).contains(p) <==> (exists|dy: int, dx: int|
            (dy == -1 || dy == 1) && (dx == -1 || dx == 1) && dy_ok(piece, side, dy) && #[trigger] step_by(
                g,
                pos,
                dy,
                dx,
                p,
            )),
{
    lemma_one_step_contains(g, pos, -1, -1, p);
    lemma_one_step_contains(g, pos, -1, 1, p);
    lemma_one_step_contains(g, pos, 1, -1, p);
    lemma_one_step_contains(g, pos, 1, 1, p);
    let a = one_step(g, pos, -1, -1);
    let b = one_step(g, pos, -1, 1);
    let c = one_step(g, pos, 1, -1);
    let d = one_step(g, pos, 1, 1);
    if is_king_sq(piece) {
        lemma_concat_contains(a, b, p);
        lemma_concat_contains(a + b, c, p);
        lemma_concat_contains(a + b + c, d, p);
    } else {
        lemma_one_step_contains(g, pos, fwd(side), -1, p);
        lemma_one_step_contains(g, pos, fwd(side), 1, p);
        lemma_concat_contains(one_step(g, pos, fwd(side), -1), one_step(g, pos, fwd(side), 1), p);
    }
}

proof fn lemma_row_moves_contains(g: CGrid, side: Side, r: int, n: nat, p: Seq<Position>)
    ensures
        row_moves(g, side, false, r, n).contains(p) <==> (exists|c: int|
            0 <= c < n && #[trigger] square_moves(g, side, false, r, c).contains(p)),
    decreases n,
{
    if n > 0 {
        lemma_row_moves_contains(g, side, r, (n - 1) as nat, p);
        lemma_concat_contains(row_moves(g, side, false, r, (n - 1) as nat), square_moves(g, side, false, r, n - 1), p);
    }
}

proof fn lemma_moves_upto_contains(g: CGrid, side: Side, n: nat, p: Seq<Position>)
    ensures
        moves_upto(g, side, false, n).contains(p) <==> (exists|r: int, c: int|
            0 <= r < n && 0 <= c < 8 && #[trigger] square_moves(g, side, false, r, c).contains(p)),
    decreases n,
{
    if n > 0 {
        lemma_moves_upto_contains(g, side, (n - 1) as nat, p);
        lemma_row_moves_contains(g, side, n - 1, 8, p);
        lemma_concat_contains(moves_upto(g, side, false, (n - 1) as nat), row_moves(g, side, false, n - 1, 8), p);
    }
}

/// With captures off, the generated moves are exactly the simple steps.
proof fn lemma_generated_steps(g: CGrid, side: Side, p: Seq<Position>)
    ensures
        moves_upto(g, side, false, 8).contains(p) <==> simple_step(g, side, p),
{
    lemma_moves_upto_contains(g, side, 8, p);
    if moves_upto(g, side, false, 8).contains(p) {
        let (r, c) = choose|r: int, c: int| 0 <= r < 8 && 0 <= c < 8 && #[trigger] square_moves(g, side, false, r, c).contains(p);
        lemma_step_moves_contains(g, g[r][c], side, at(r, c), p);
        let (dy, dx) = choose|dy: int, dx: int|
            (dy == -1 || dy == 1) && (dx == -1 || dx == 1) && dy_ok(g[r][c], side, dy) && #[trigger] step_by(g, at(r, c), dy, dx, p);
        assert(p[0] == at(r, c));
        assert(simple_step(g, side, p));
    }
    if simple_step(g, side, p) {
        let r = p[0].row as int;
        let c = p[0].col as int;
        let dy = p[1].row - r;
        let dx = p[1].col - c;
        assert(at(r, c) == p[0]);
        assert(at(r + dy, c + dx) == p[1]);
        assert(step_by(g, at(r, c), dy, dx, p));
        lemma_step_moves_contains(g, g[r][c], side, at(r, c), p);
        assert(square_moves(g, side, false, r, c).contains(p));
    }
}

/// Once a hop fails, the whole walk fails.
proof fn lemma_hops_fail_on(g: CGrid, side: Side, path: Seq<Position>, caps: bool, m: nat)
    requires
        m >= 1,
        hops_through(g, side, path, caps, 1) is Err,
    ensures
        hops_through(g, side, path, caps, m) is Err,
    decreases m,
{
    if m > 1 {
        lemma_hops_fail_on(g, side, path, caps, (m - 1) as nat);
    }
}

/// With no capture available, what validation accepts is a simple step.
proof fn lemma_validated_is_step(g: CGrid, side: Side, path: Seq<Position>)
    requires
        g.len() == 8,
        forall|i: int| 0 <= i < 8 ==> (#[trigger] g[i]).len() == 8,
        !any_capture(g, side),
        move_rejection(g, side, path) is None,
    ensures
        simple_step(g, side, path),
{
    let s0 = path[0];
    let r = s0.row as int;
    let c = s0.col as int;
    let to = path[1];
    let dr = to.row - r;
    let dc = to.col - c;
    let piece = g[r][c];
    let board = set_sq(g, r, c, Square::Empty);
    lemma_squares_ok(path, path.len());
    assert(pos_in(path[0]) && pos_in(path[1]));
    let h1 = hops_through(g, side, path, false, 1);
    let init: HopState = (board, piece, s0, false, false, Seq::empty());
    assert(hops_through(g, side, path, false, 0) == Ok::<HopState, Seq<char>>(init));
    assert(h1 == hop_check(init, side, path, 1, false));
    if h1 is Err {
        lemma_hops_fail_on(g, side, path, false, (path.len() - 1) as nat);
    }
    assert(h1 is Ok);
    if iabs(dr) == 2 {
        let mr = r + dr / 2;
        let mc = c + dc / 2;
        assert(board[to.row as int][to.col as int] == Square::Empty);
        assert(g[to.row as int][to.col as int] == Square::Empty);
        assert(board[mr][mc] == g[mr][mc]);
        assert(jump_at(g, side, r, c, sign(dr), sign(dc)));
        assert(has_jump_from(g, g[r][c], Position { row: r as u8, col: c as u8 }));
        assert(false);
    }
    assert(path.len() == 2);
}

/// With no capture available, validation accepts every simple step.
proof fn lemma_step_is_validated(g: CGrid, side: Side, path: Seq<Position>)
    requires
        g.len() == 8,
        forall|i: int| 0 <= i < 8 ==> (#[trigger] g[i]).len() == 8,
        pieces_dark(g),
        !any_capture(g, side),
        simple_step(g, side, path),
    ensures
        move_rejection(g, side, path) is None,
{
    let s0 = path[0];
    let r = s0.row as int;
    let c = s0.col as int;
    let to = path[1];
    let board = set_sq(g, r, c, Square::Empty);
    assert((r + c) % 2 == 1);
    assert(dark(path[0]));
    assert(dark(path[1]));
    assert(squares_problem(path, 0) is None);
    assert(squares_problem(path, 1) is None);
    assert(squares_problem(path, 2) is None);
    assert(board[to.row as int][to.col as int] == Square::Empty);
    let init: HopState = (board, g[r][c], s0, false, false, Seq::empty());
    assert(hops_through(g, side, path, false, 0) == Ok::<HopState, Seq<char>>(init));
    assert(hops_through(g, side, path, false, 1) is Ok);
}

/// With no capture available, validation accepts exactly the simple steps.
proof fn lemma_validated_steps(g: CGrid, side: Side, path: Seq<Position>)
    requires
        g.len() == 8,
        forall|i: int| 0 <= i < 8 ==> (#[trigger] g[i]).len() == 8,
        pieces_dark(g),
        !any_capture(g, side),
    ensures
        move_rejection(g, side, path) is None <==> simple_step(g, side, path),
{
    if move_rejection(g, side, path) is None {
        lemma_validated_is_step(g, side, path);
    }
    if simple_step(g, side, path) {
        lemma_step_is_validated(g, side, path);
    }
}

/// When the side to move has no capture and every piece stands on a dark
/// square, a move is accepted exactly when it is one of the generated legal
/// moves (all of them simple steps then).
pub proof fn law_steps_validate_iff_legal(st: CheckersState, path: Seq<Position>)
    requires
        pieces_dark(cgrid(st.board)),
        !any_capture(cgrid(st.board), turn_side(st.current_turn as int)),
    ensures
        (move_rejection(cgrid(st.board), turn_side(st.current_turn as int), path) is None) <==> legal_paths(
            st,
        ).contains(path),
{
    let g = cgrid(st.board);
    let side = turn_side(st.current_turn as int);
    lemma_cgrid_shape(st.board);
    lemma_validated_steps(g, side, path);
    lemma_generated_steps(g, side, path);
}

/// The starting position: every piece on a dark square, no capture for the
/// side that moves first (Black), and a step for it among the generated
/// moves.
pub proof fn lemma_start_position(g: CGrid)
    requires
        g.len() == 8,
        forall|i: int| 0 <= i < 8 ==> (#[trigger] g[i]).len() == 8,
        forall|r: int, c: int| on8(r, c) ==> #[trigger] g[r][c] == start_square(r, c),
    ensures
        pieces_dark(g),
        !any_capture(g, Side::Black),
        moves_upto(g, Side::Black, false, 8).contains(seq![at(5, 0), at(4, 1)]),
{
    assert forall|r: int, c: int| on8(r, c) && side_of(#[trigger] g[r][c]) is Some implies (r + c) % 2 == 1 by {
        assert(g[r][c] == start_square(r, c));
    }
    assert forall|r: int, c: int|
        on8(r, c) && side_of(#[trigger] g[r][c]) == Some(Side::Black) implies !has_jump_from(
            g,
            g[r][c],
            Position { row: r as u8, col: c as u8 },
        ) by {
        assert(g[r][c] == start_square(r, c));
        assert(r >= 5);
        if on8(r - 2, c - 2) {
            assert(g[r - 1][c - 1] == start_square(r - 1, c - 1));
        }
        if on8(r - 2, c + 2) {
            assert(g[r - 1][c + 1] == start_square(r - 1, c + 1));
        }
    }
    let step = seq![at(5, 0), at(4, 1)];
    assert(g[5][0] == start_square(5, 0));
    assert(g[4][1] == start_square(4, 1));
    assert(simple_step(g, Side::Black, step));
    lemma_generated_steps(g, Side::Black, step);
}

/// After any first move from the starting position the game goes on: the
/// move is a plain step of a Black man into row 4 or 5, so no draw is near
/// and Red still has a step (from c3 to b4).
pub proof fn lemma_start_reply(s0: CheckersState, path: Seq<Position>, s1: CheckersState)
    requires
        forall|r: int, c: int| on8(r, c) ==> #[trigger] cgrid(s0.board)[r][c] == start_square(r, c),
        s0.current_turn == 0,
        s0.plies_since_progress == 0,
        legal_paths(s0).contains(path),
        applied(s0, path, s1),
    ensures
        checkers_outcome(s1) is None,
{
    let g0 = cgrid(s0.board);
    lemma_cgrid_shape(s0.board);
    lemma_start_position(g0);
    lemma_generated_steps(g0, Side::Black, path);
    assert(simple_step(g0, Side::Black, path));
    let from = path[0];
    let to = path[1];
    let fr = from.row as int;
    let fc = from.col as int;
    assert(g0[fr][fc] == start_square(fr, fc));
    assert(fr >= 5);
    assert(to.row as int == fr - 1);
    let piece = g0[fr][fc];
    let r0 = run_path(g0, Side::Black, path, 0);
    assert(r0 == (set_sq(g0, fr, fc, Square::Empty), piece, 0nat, false));
    let r1 = run_path(g0, Side::Black, path, 1);
    assert(r1 == (set_sq(g0, fr, fc, Square::Empty), piece, 0nat, false));
    let g1 = cgrid(s1.board);
    lemma_cgrid_shape(s1.board);
    assert(g1 == set_sq(set_sq(g0, fr, fc, Square::Empty), to.row as int, to.col as int, piece));
    assert(s1.plies_since_progress == 1);
    assert(s1.current_turn == 1);
    assert forall|r: int, c: int| on8(r, c) && r <= 3 implies #[trigger] g1[r][c] == start_square(r, c) by {
        assert(g0[r][c] == start_square(r, c));
    }
    assert forall|r: int, c: int|
        on8(r, c) && side_of(#[trigger] g1[r][c]) == Some(Side::Red) implies !has_jump_from(
            g1,
            g1[r][c],
            Position { row: r as u8, col: c as u8 },
        ) by {
        assert(g0[r][c] == start_square(r, c));
        assert(r <= 2);
        assert(g1[r][c] == Square::Man(Side::Red));
        if on8(r + 2, c - 2) {
            assert(g1[r + 1][c - 1] == start_square(r + 1, c - 1));
        }
        if on8(r + 2, c + 2) {
            assert(g1[r + 1][c + 1] == start_square(r + 1, c + 1));
        }
    }
    assert(!any_capture(g1, Side::Red));
    let step = seq![at(2, 1), at(3, 0)];
    assert(g1[2][1] == start_square(2, 1));
    assert(g1[3][0] == start_square(3, 0));
    assert(simple_step(g1, Side::Red, step));
    lemma_generated_steps(g1, Side::Red, step);
    assert(legal_paths(s1).contains(step));
}


// ---------------------------------------------------------------------------
// Law of crowning
// ---------------------------------------------------------------------------

/// The far row of `side`'s men: row 7 for Red, row 0 for Black.
pub open spec fn far_row(side: Side) -> int {
    if side == Side::Red {
        7
    } else {
        0
    }
}

pub open spec fn grid8(g: CGrid) -> bool {
    g.len() == 8 && forall|i: int| 0 <= i < 8 ==> (#[trigger] g[i]).len() == 8
}

/// Playing a path keeps the board's shape, and the moving piece stays a man or
/// a king of its side.
proof fn lemma_run_keeps_piece(g: CGrid, side: Side, path: Seq<Position>, m: nat)
    requires
        grid8(g),
        path_in_board(path),
        m < path.len(),
        g[path[0].row as int][path[0].col as int] == Square::Man(side) || g[path[0].row as int][path[0].col as int]
            == Square::King(side),
    ensures
        grid8(run_path(g, side, path, m).0),
        run_path(g, side, path, m).1 == Square::Man(side) || run_path(g, side, path, m).1 == Square::King(side),
    decreases m,
{
    assert(pos_in(path[0]));
    if m > 0 {
        lemma_run_keeps_piece(g, side, path, (m - 1) as nat);
        assert(pos_in(path[m - 1]) && pos_in(path[m as int]));
    }
}

/// A man that ends its move on the far row, the row its men walk towards
/// (row 7 for Red, which starts on rows 0-2; row 0 for Black, which starts on
/// rows 5-7), stands there as a king after the move, whether it got there by
/// a step or at the end of a chain of jumps.
pub proof fn law_man_crowned_on_far_row(st: CheckersState, path: Seq<Position>, next: CheckersState)
    requires
        st.wf(),
        path.len() >= 2,
        path_in_board(path),
        st.board[path[0].row as int][path[0].col as int] == Square::Man(turn_side(st.current_turn as int)),
        path.last().row == far_row(turn_side(st.current_turn as int)),
        applied(st, path, next),
    ensures
        next.board[path.last().row as int][path.last().col as int] == Square::King(
            turn_side(st.current_turn as int),
        ),
{
    let side = turn_side(st.current_turn as int);
    let g = cgrid(st.board);
    lemma_cgrid_shape(st.board);
    lemma_cgrid_shape(next.board);
    assert(pos_in(path[0]));
    assert(g[path[0].row as int][path[0].col as int] == st.board[path[0].row as int][path[0].col as int]);
    let m = (path.len() - 1) as nat;
    lemma_run_keeps_piece(g, side, path, (m - 1) as nat);
    lemma_run_keeps_piece(g, side, path, m);
    let r = run_path(g, side, path, m);
    assert(path[m as int] == path.last());
    assert(r.1 == Square::King(side));
    let last = path.last();
    assert(pos_in(path[m as int]));
    assert(cgrid(next.board)[last.row as int][last.col as int] == Square::King(side));
    assert(cgrid(next.board)[last.row as int][last.col as int] == next.board[last.row as int][last.col as int]);
}

proof fn lemma_run_stays_man(g: CGrid, side: Side, path: Seq<Position>, m: nat)
    requires
        grid8(g),
        path_in_board(path),
        m < path.len(),
        g[path[0].row as int][path[0].col as int] == Square::Man(side),
        forall|i: int| 1 <= i < path.len() ==> (#[trigger] path[i]).row != far_row(side),
    ensures
        grid8(run_path(g, side, path, m).0),
        run_path(g, side, path, m).1 == Square::Man(side),
    decreases m,
{
    assert(pos_in(path[0]));
    if m > 0 {
        lemma_run_stays_man(g, side, path, (m - 1) as nat);
        assert(pos_in(path[m - 1]) && pos_in(path[m as int]));
        assert(path[m as int].row != far_row(side));
    }
}

/// A man whose move never touches its far row stays a man: after the move
/// the square it lands on holds a man of its side.
pub proof fn law_man_stays_man_off_far_row(st: CheckersState, path: Seq<Position>, next: CheckersState)
    requires
        st.wf(),
        path.len() >= 2,
        path_in_board(path),
        st.board[path[0].row as int][path[0].col as int] == Square::Man(turn_side(st.current_turn as int)),
        forall|i: int| 1 <= i < path.len() ==> (#[trigger] path[i]).row != far_row(turn_side(st.current_turn as int)),
        applied(st, path, next),
    ensures
        next.board[path.last().row as int][path.last().col as int] == Square::Man(
            turn_side(st.current_turn as int),
        ),
{
    let side = turn_side(st.current_turn as int);
    let g = cgrid(st.board);
    lemma_cgrid_shape(st.board);
    lemma_cgrid_shape(next.board);
    assert(pos_in(path[0]));
    assert(g[path[0].row as int][path[0].col as int] == st.board[path[0].row as int][path[0].col as int]);
    let m = (path.len() - 1) as nat;
    lemma_run_stays_man(g, side, path, m);
    let last = path.last();
    assert(path[m as int] == last);
    assert(pos_in(path[m as int]));
    assert(cgrid(next.board)[last.row as int][last.col as int] == Square::Man(side));
    assert(cgrid(next.board)[last.row as int][last.col as int] == next.board[last.row as int][last.col as int]);
}

} // verus!
