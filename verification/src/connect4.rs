use vstd::prelude::*;

use crate::random::choose_item;
use crate::types::{Difficulty, GameOutcome, GameSettings, PlayerId};

verus! {

pub const ROWS: usize = 6;

pub const COLS: usize = 7;

#[derive(Clone, Copy, Debug, PartialEq, Eq, Structural)]
pub enum Cell {
    Empty,
    Red,
    Yellow,
}

/// A move: the column (0..7) to drop a disc into.
#[derive(Clone, Copy, Debug, PartialEq, Eq, Structural)]
pub struct Connect4Move {
    pub col: u8,
}

#[derive(Clone, Copy, Debug)]
pub struct Connect4State {
    /// board[row][col], row 0 at the bottom.
    pub board: [[Cell; 7]; 6],
    /// players[0] plays Red (moves first), players[1] plays Yellow.
    pub players: [PlayerId; 2],
    pub current_turn: usize,
    pub move_count: u8,
}

impl Connect4State {
    pub open spec fn wf(&self) -> bool {
        self.current_turn < 2
    }
}

/// The engine (stateless).
pub struct Connect4;

pub type FGrid = Seq<Seq<Cell>>;

pub open spec fn fgrid(b: [[Cell; 7]; 6]) -> FGrid {
    b@.map_values(|row: [Cell; 7]| row@)
}

pub open spec fn fset(g: FGrid, r: int, c: int, v: Cell) -> FGrid {
    g.update(r, g[r].update(c, v))
}

pub open spec fn shaped(g: FGrid) -> bool {
    g.len() == 6 && forall|r: int| 0 <= r < 6 ==> (#[trigger] g[r]).len() == 7
}

pub open spec fn disc(turn: int) -> Cell {
    if turn == 0 {
        Cell::Red
    } else {
        Cell::Yellow
    }
}

/// The lowest empty row of column `c` at or above row `r` (6 if none).
pub open spec fn drop_row(g: FGrid, c: int, r: int) -> int
    decreases 6 - r,
{
    if r >= 6 || r < 0 {
        6
    } else if g[r][c] == Cell::Empty {
        r
    } else {
        drop_row(g, c, r + 1)
    }
}

/// The board after dropping `v` into column `c` (unchanged if it is full).
pub open spec fn dropped(g: FGrid, c: int, v: Cell) -> FGrid {
    let r = drop_row(g, c, 0);
    if r < 6 {
        fset(g, r, c, v)
    } else {
        g
    }
}

/// Four equal discs from (r, c) in steps of (dr, dc), inside the board.
pub open spec fn four(g: FGrid, r: int, c: int, dr: int, dc: int) -> bool {
    &&& 0 <= r + 3 * dr < 6
    &&& 0 <= c + 3 * dc < 7
    &&& g[r][c] == g[r + dr][c + dc]
    &&& g[r][c] == g[r + 2 * dr][c + 2 * dc]
    &&& g[r][c] == g[r + 3 * dr][c + 3 * dc]
}

/// A line of four starts on (r, c): right, up, up-right or up-left.
pub open spec fn line_from(g: FGrid, r: int, c: int) -> bool {
    g[r][c] != Cell::Empty && (four(g, r, c, 0, 1) || four(g, r, c, 1, 0) || four(g, r, c, 1, 1)
        || four(g, r, c, 1, -1))
}

/// The disc of the first line found on the first `n` cells of row `r`.
pub open spec fn line_in_row(g: FGrid, r: int, n: nat) -> Option<Cell>
    decreases n,
{
    if n == 0 {
        None
    } else {
        match line_in_row(g, r, (n - 1) as nat) {
            Some(x) => Some(x),
            None => if line_from(g, r, n - 1) {
                Some(g[r][n - 1])
            } else {
                None
            },
        }
    }
}

/// The disc of the first line found scanning the first `n` rows, bottom up.
pub open spec fn first_line(g: FGrid, n: nat) -> Option<Cell>
    decreases n,
{
    if n == 0 {
        None
    } else {
        match first_line(g, (n - 1) as nat) {
            Some(x) => Some(x),
            None => line_in_row(g, n - 1, 7),
        }
    }
}

/// A line of four wins for its colour (Red for players[0]); a full board
/// without one is a draw.
pub open spec fn c4_outcome(g: FGrid, move_count: int, players: [PlayerId; 2]) -> Option<GameOutcome> {
    match first_line(g, 6) {
        Some(Cell::Red) => Some(GameOutcome::Win(players[0])),
        Some(_) => Some(GameOutcome::Win(players[1])),
        None => if move_count == 42 {
            Some(GameOutcome::Draw)
        } else {
            None
        },
    }
}

/// Why `player` may not play `mv` now (`None`: accepted).
pub open spec fn c4_rejection(st: Connect4State, player: PlayerId, mv: Connect4Move) -> Option<Seq<char>> {
    if st.players[st.current_turn as int] != player {
        Some("not your turn"@)
    } else if mv.col >= 7 {
        Some("column out of bounds"@)
    } else if fgrid(st.board)[5][mv.col as int] != Cell::Empty {
        Some("column is full"@)
    } else {
        None
    }
}

fn set_cell(board: &mut [[Cell; 7]; 6], r: usize, c: usize, v: Cell)
    requires
        r < 6,
        c < 7,
    ensures
        fgrid(*final(board)) == fset(fgrid(*old(board)), r as int, c as int, v),
{
    board[r][c] = v;
    assert(fgrid(*board) =~~= fset(fgrid(*old(board)), r as int, c as int, v));
}

fn winner_from_cell(state: &Connect4State, cell: Cell) -> (o: GameOutcome)
    ensures
        o == match cell {
            Cell::Red => GameOutcome::Win(state.players[0]),
            _ => GameOutcome::Win(state.players[1]),
        },
{
    match cell {
        Cell::Red => GameOutcome::Win(state.players[0]),
        _ => GameOutcome::Win(state.players[1]),
    }
}

fn line_at(b: &[[Cell; 7]; 6], row: usize, col: usize) -> (r: bool)
    requires
        row < 6,
        col < 7,
    ensures
        r == line_from(fgrid(*b), row as int, col as int),
{
    let ghost g = fgrid(*b);
    assert(forall|r: int, c: int| 0 <= r < 6 && 0 <= c < 7 ==> #[trigger] g[r][c] == b[r][c]);
    let cell = b[row][col];
    if cell == Cell::Empty {
        return false;
    }
    if col + 3 < 7 && cell == b[row][col + 1] && cell == b[row][col + 2] && cell == b[row][col + 3] {
        assert(four(g, row as int, col as int, 0, 1));
        return true;
    }
    if row + 3 < 6 && cell == b[row + 1][col] && cell == b[row + 2][col] && cell == b[row + 3][col] {
        assert(four(g, row as int, col as int, 1, 0));
        return true;
    }
    if row + 3 < 6 && col + 3 < 7 && cell == b[row + 1][col + 1] && cell == b[row + 2][col + 2] && cell
        == b[row + 3][col + 3] {
        assert(four(g, row as int, col as int, 1, 1));
        return true;
    }
    if row + 3 < 6 && col >= 3 && cell == b[row + 1][col - 1] && cell == b[row + 2][col - 2] && cell
        == b[row + 3][col - 3] {
        assert(four(g, row as int, col as int, 1, -1));
        return true;
    }
    false
}

impl Connect4 {
    /// An empty board; Red (players[0]) moves first.
    pub fn initial_state(players: &[PlayerId], _settings: &GameSettings) -> (st: Connect4State)
        requires
            players@.len() >= 2,
        ensures
            st.wf(),
            forall|r: int, c: int| 0 <= r < 6 && 0 <= c < 7 ==> #[trigger] fgrid(st.board)[r][c] == Cell::Empty,
            st.players == [players@[0], players@[1]],
            st.current_turn == 0,
            st.move_count == 0,
    {
        Connect4State {
            board: [[Cell::Empty; 7]; 6],
            players: [players[0], players[1]],
            current_turn: 0,
            move_count: 0,
        }
    }

    /// Checks a move by `player` (see `c4_rejection`).
    pub fn validate_move(state: &Connect4State, player: PlayerId, mv: &Connect4Move) -> (r: Result<(), String>)
        requires
            state.wf(),
        ensures
            match r {
                Ok(()) => c4_rejection(*state, player, *mv).is_none(),
                Err(e) => c4_rejection(*state, player, *mv) == Some(e@),
            },
    {
        if state.players[state.current_turn] != player {
            return Err("not your turn".to_owned());
        }
        if mv.col as usize >= COLS {
            return Err("column out of bounds".to_owned());
        }
        assert(fgrid(state.board)[5][mv.col as int] == state.board[5][mv.col as int]);
        if state.board[ROWS - 1][mv.col as usize] != Cell::Empty {
            return Err("column is full".to_owned());
        }
        Ok(())
    }

    /// Drops the mover's disc into the column (nothing lands in a full one)
    /// and passes the turn.
    pub fn apply_move(state: &mut Connect4State, _player: PlayerId, mv: &Connect4Move)
        requires
            old(state).wf(),
            mv.col < 7,
            old(state).move_count < 255,
        ensures
            final(state).wf(),
            fgrid(final(state).board) == dropped(
                fgrid(old(state).board),
                mv.col as int,
                disc(old(state).current_turn as int),
            ),
            final(state).players == old(state).players,
            final(state).move_count == old(state).move_count + 1,
            final(state).current_turn == 1 - old(state).current_turn,
    {
        let cell = if state.current_turn == 0 {
            Cell::Red
        } else {
            Cell::Yellow
        };
        let ghost g = fgrid(state.board);
        let c = mv.col as usize;
        let mut row: usize = 0;
        while row < ROWS
            invariant_except_break
                fgrid(state.board) == g,
            invariant
                g == fgrid(old(state).board),
                c < 7,
                c == mv.col,
                cell == disc(old(state).current_turn as int),
                row <= 6,
                state.current_turn == old(state).current_turn,
                state.players == old(state).players,
                state.move_count == old(state).move_count,
                drop_row(g, c as int, 0) == drop_row(g, c as int, row as int),
            ensures
                fgrid(state.board) == dropped(g, c as int, cell),
            decreases 6 - row,
        {
            assert(g[row as int][c as int] == state.board[row as int][c as int]);
            if state.board[row][c] == Cell::Empty {
                set_cell(&mut state.board, row, c, cell);
                break;
            }
            row += 1;
        }
        state.move_count = state.move_count + 1;
        state.current_turn = 1 - state.current_turn;
    }

    /// The outcome if the game is over (see `c4_outcome`).
    pub fn is_terminal(state: &Connect4State) -> (r: Option<GameOutcome>)
        ensures
            r == c4_outcome(fgrid(state.board), state.move_count as int, state.players),
    {
        let ghost g = fgrid(state.board);
        let mut row: usize = 0;
        while row < ROWS
            invariant
                g == fgrid(state.board),
                row <= 6,
                first_line(g, row as nat) is None,
            decreases 6 - row,
        {
            let mut col: usize = 0;
            while col < COLS
                invariant
                    g == fgrid(state.board),
                    row < 6,
                    col <= 7,
                    first_line(g, row as nat) is None,
                    line_in_row(g, row as int, col as nat) is None,
                decreases 7 - col,
            {
                if line_at(&state.board, row, col) {
                    assert(g[row as int][col as int] == state.board[row as int][col as int]);
                    let cell = state.board[row][col];
                    proof {
                        lemma_line_row_stays(g, row as int, (col + 1) as nat, 7);
                        lemma_first_line_stays(g, (row + 1) as nat, 6);
                    }
                    return Some(winner_from_cell(state, cell));
                }
                col += 1;
            }
            row += 1;
        }
        if state.move_count as usize == ROWS * COLS {
            return Some(GameOutcome::Draw);
        }
        None
    }

    /// The player whose turn it is.
    pub fn current_player(state: &Connect4State) -> (p: PlayerId)
        requires
            state.wf(),
        ensures
            p == state.players[state.current_turn as int],
    {
        state.players[state.current_turn]
    }
}

proof fn lemma_line_row_stays(g: FGrid, r: int, k: nat, n: nat)
    requires
        k <= n,
        line_in_row(g, r, k) is Some,
    ensures
        line_in_row(g, r, n) == line_in_row(g, r, k),
    decreases n - k,
{
    if n > k {
        lemma_line_row_stays(g, r, k, (n - 1) as nat);
    }
}

proof fn lemma_first_line_stays(g: FGrid, k: nat, n: nat)
    requires
        k <= n,
        first_line(g, k) is Some,
    ensures
        first_line(g, n) == first_line(g, k),
    decreases n - k,
{
    if n > k {
        lemma_first_line_stays(g, k, (n - 1) as nat);
    }
}


// ---------------------------------------------------------------------------
// Bot
// ---------------------------------------------------------------------------

pub open spec fn count_in(a: Cell, b: Cell, c: Cell, d: Cell, x: Cell) -> int {
    (if a == x {
        1int
    } else {
        0int
    }) + (if b == x {
        1int
    } else {
        0int
    }) + (if c == x {
        1int
    } else {
        0int
    }) + (if d == x {
        1int
    } else {
        0int
    })
}

pub open spec fn run_value(n: int) -> int {
    if n == 4 {
        100
    } else if n == 3 {
        5
    } else if n == 2 {
        2
    } else {
        0
    }
}

/// A window of four cells: worthless when both colours are in it, else
/// 2, 5 or 100 for two, three or four discs of one colour (Red positive).
pub open spec fn window_value(a: Cell, b: Cell, c: Cell, d: Cell) -> int {
    let red = count_in(a, b, c, d, Cell::Red);
    let yellow = count_in(a, b, c, d, Cell::Yellow);
    if red > 0 && yellow > 0 {
        0
    } else {
        run_value(red) - run_value(yellow)
    }
}

pub fn score_window(a: Cell, b: Cell, c: Cell, d: Cell) -> (v: i32)
    ensures
        v == window_value(a, b, c, d),
{
    let mut red: i32 = 0;
    let mut yellow: i32 = 0;
    if a == Cell::Red {
        red += 1;
    } else if a == Cell::Yellow {
        yellow += 1;
    }
    if b == Cell::Red {
        red += 1;
    } else if b == Cell::Yellow {
        yellow += 1;
    }
    if c == Cell::Red {
        red += 1;
    } else if c == Cell::Yellow {
        yellow += 1;
    }
    if d == Cell::Red {
        red += 1;
    } else if d == Cell::Yellow {
        yellow += 1;
    }
    if red > 0 && yellow > 0 {
        return 0;
    }
    let rv: i32 = if red == 4 {
        100
    } else if red == 3 {
        5
    } else if red == 2 {
        2
    } else {
        0
    };
    let yv: i32 = if yellow == 4 {
        100
    } else if yellow == 3 {
        5
    } else if yellow == 2 {
        2
    } else {
        0
    };
    rv - yv
}

/// Centre-column bonus of the first `n` rows: 3 per Red disc, -3 per Yellow.
pub open spec fn center_value(g: FGrid, n: nat) -> int
    decreases n,
{
    if n == 0 {
        0
    } else {
        center_value(g, (n - 1) as nat) + if g[n - 1][3] == Cell::Red {
            3int
        } else if g[n - 1][3] == Cell::Yellow {
            -3int
        } else {
            0int
        }
    }
}

/// The windows starting on (r, c): right, up, up-right, up-left.
pub open spec fn cell_windows(g: FGrid, r: int, c: int) -> int {
    (if c + 3 < 7 {
        window_value(g[r][c], g[r][c + 1], g[r][c + 2], g[r][c + 3])
    } else {
        0
    }) + (if r + 3 < 6 {
        window_value(g[r][c], g[r + 1][c], g[r + 2][c], g[r + 3][c])
    } else {
        0
    }) + (if r + 3 < 6 && c + 3 < 7 {
        window_value(g[r][c], g[r + 1][c + 1], g[r + 2][c + 2], g[r + 3][c + 3])
    } else {
        0
    }) + (if r + 3 < 6 && c >= 3 {
        window_value(g[r][c], g[r + 1][c - 1], g[r + 2][c - 2], g[r + 3][c - 3])
    } else {
        0
    })
}

pub open spec fn row_windows(g: FGrid, r: int, n: nat) -> int
    decreases n,
{
    if n == 0 {
        0
    } else {
        row_windows(g, r, (n - 1) as nat) + cell_windows(g, r, n - 1)
    }
}

pub open spec fn all_windows(g: FGrid, n: nat) -> int
    decreases n,
{
    if n == 0 {
        0
    } else {
        all_windows(g, (n - 1) as nat) + row_windows(g, n - 1, 7)
    }
}

/// Static evaluation (Red positive): centre bonus plus all windows of four.
pub open spec fn eval_value(g: FGrid) -> int {
    center_value(g, 6) + all_windows(g, 6)
}

fn window_at(b: &[[Cell; 7]; 6], r: usize, c: usize, dr: i32, dc: i32) -> (v: i32)
    requires
        r < 6,
        c < 7,
        0 <= r + 3 * dr < 6,
        0 <= c + 3 * dc < 7,
        dr == 0 || dr == 1,
        -1 <= dc <= 1,
    ensures
        v == window_value(
            fgrid(*b)[r as int][c as int],
            fgrid(*b)[r + dr][c + dc],
            fgrid(*b)[r + 2 * dr][c + 2 * dc],
            fgrid(*b)[r + 3 * dr][c + 3 * dc],
        ),
        -100 <= v <= 100,
{
    let r1 = (r as i32 + dr) as usize;
    let c1 = (c as i32 + dc) as usize;
    let r2 = (r as i32 + 2 * dr) as usize;
    let c2 = (c as i32 + 2 * dc) as usize;
    let r3 = (r as i32 + 3 * dr) as usize;
    let c3 = (c as i32 + 3 * dc) as usize;
    let a = b[r][c];
    let x = b[r1][c1];
    let y = b[r2][c2];
    let z = b[r3][c3];
    assert(fgrid(*b)[r as int][c as int] == a);
    assert(fgrid(*b)[r1 as int][c1 as int] == x);
    assert(fgrid(*b)[r2 as int][c2 as int] == y);
    assert(fgrid(*b)[r3 as int][c3 as int] == z);
    score_window(a, x, y, z)
}

fn cell_windows_exec(b: &[[Cell; 7]; 6], r: usize, c: usize) -> (v: i32)
    requires
        r < 6,
        c < 7,
    ensures
        v == cell_windows(fgrid(*b), r as int, c as int),
        -400 <= v <= 400,
{
    let mut v: i32 = 0;
    if c + 3 < 7 {
        v = v + window_at(b, r, c, 0, 1);
    }
    if r + 3 < 6 {
        v = v + window_at(b, r, c, 1, 0);
    }
    if r + 3 < 6 && c + 3 < 7 {
        v = v + window_at(b, r, c, 1, 1);
    }
    if r + 3 < 6 && c >= 3 {
        v = v + window_at(b, r, c, 1, -1);
    }
    v
}

/// Static evaluation of the position (see `eval_value`).
fn evaluate(state: &Connect4State) -> (v: i32)
    ensures
        v == eval_value(fgrid(state.board)),
{
    let ghost g = fgrid(state.board);
    let mut score: i32 = 0;
    let mut row: usize = 0;
    while row < ROWS
        invariant
            g == fgrid(state.board),
            row <= 6,
            score == center_value(g, row as nat),
            -3 * (row as int) <= score <= 3 * (row as int),
        decreases 6 - row,
    {
        assert(g[row as int][3] == state.board[row as int][3]);
        if state.board[row][3] == Cell::Red {
            score += 3;
        } else if state.board[row][3] == Cell::Yellow {
            score -= 3;
        }
        row += 1;
    }
    let ghost center = score as int;
    let mut row: usize = 0;
    while row < ROWS
        invariant
            g == fgrid(state.board),
            row <= 6,
            -18 <= center <= 18,
            center == center_value(g, 6),
            score == center + all_windows(g, row as nat),
            -18 - 2800 * (row as int) <= score <= 18 + 2800 * (row as int),
        decreases 6 - row,
    {
        let mut col: usize = 0;
        let mut acc: i32 = 0;
        while col < COLS
            invariant
                g == fgrid(state.board),
                row < 6,
                col <= 7,
                acc == row_windows(g, row as int, col as nat),
                -400 * (col as int) <= acc <= 400 * (col as int),
            decreases 7 - col,
        {
            acc = acc + cell_windows_exec(&state.board, row, col);
            col += 1;
        }
        assert(-2800 <= acc <= 2800);
        score = score + acc;
        row += 1;
    }
    score
}

/// The column tried at position `i` of the search order (centre first).
pub open spec fn col_at(i: int) -> int {
    if i == 0 {
        3
    } else if i == 1 {
        2
    } else if i == 2 {
        4
    } else if i == 3 {
        1
    } else if i == 4 {
        5
    } else if i == 5 {
        0
    } else {
        6
    }
}

fn col_order(i: usize) -> (c: usize)
    requires
        i < 7,
    ensures
        c == col_at(i as int),
        c < 7,
{
    if i == 0 {
        3
    } else if i == 1 {
        2
    } else if i == 2 {
        4
    } else if i == 3 {
        1
    } else if i == 4 {
        5
    } else if i == 5 {
        0
    } else {
        6
    }
}

/// Score of a finished game for Red: 1000 plus the remaining depth for a
/// win, its opposite for a loss, 0 for a draw.
pub open spec fn end_score(o: GameOutcome, depth: int, players: [PlayerId; 2]) -> int {
    match o {
        GameOutcome::Win(pid) => if pid == players[0] {
            1000 + depth
        } else {
            -(1000 + depth)
        },
        GameOutcome::Draw => 0,
    }
}

pub open spec fn c4_start(is_max: bool) -> int {
    if is_max {
        i32::MIN as int
    } else {
        i32::MAX as int
    }
}

/// The alpha-beta value of a position searched `depth` plies deep (Red
/// maximises), columns tried in `col_at` order.
pub open spec fn ab_value(
    g: FGrid,
    turn: int,
    mc: int,
    players: [PlayerId; 2],
    depth: nat,
    alpha: int,
    beta: int,
    is_max: bool,
) -> int
    decreases depth, 8int,
{
    match c4_outcome(g, mc, players) {
        Some(o) => end_score(o, depth as int, players),
        None => if depth == 0 {
            eval_value(g)
        } else {
            ab_scan(g, turn, mc, players, depth, alpha, beta, is_max, 0, c4_start(is_max))
        },
    }
}

/// The search loop from position `i` of the column order with the bounds and
/// the value found so far; stops as soon as alpha reaches beta.
pub open spec fn ab_scan(
    g: FGrid,
    turn: int,
    mc: int,
    players: [PlayerId; 2],
    depth: nat,
    alpha: int,
    beta: int,
    is_max: bool,
    i: int,
    value: int,
) -> int
    decreases depth, 7 - i,
{
    if i >= 7 || i < 0 || depth == 0 {
        value
    } else {
        let col = col_at(i);
        if g[5][col] != Cell::Empty {
            ab_scan(g, turn, mc, players, depth, alpha, beta, is_max, i + 1, value)
        } else {
            let score = ab_value(
                dropped(g, col, disc(turn)),
                1 - turn,
                mc + 1,
                players,
                (depth - 1) as nat,
                alpha,
                beta,
                !is_max,
            );
            if is_max {
                let v2 = if score > value {
                    score
                } else {
                    value
                };
                let a2 = if score > alpha {
                    score
                } else {
                    alpha
                };
                if a2 >= beta {
                    v2
                } else {
                    ab_scan(g, turn, mc, players, depth, a2, beta, is_max, i + 1, v2)
                }
            } else {
                let v2 = if score < value {
                    score
                } else {
                    value
                };
                let b2 = if score < beta {
                    score
                } else {
                    beta
                };
                if alpha >= b2 {
                    v2
                } else {
                    ab_scan(g, turn, mc, players, depth, alpha, b2, is_max, i + 1, v2)
                }
            }
        }
    }
}

fn alpha_beta(state: &Connect4State, depth: u8, alpha: i32, beta: i32, is_max: bool) -> (v: i32)
    requires
        state.wf(),
        state.move_count + depth < 255,
    ensures
        v == ab_value(
            fgrid(state.board),
            state.current_turn as int,
            state.move_count as int,
            state.players,
            depth as nat,
            alpha as int,
            beta as int,
            is_max,
        ),
    decreases depth,
{
    let ghost g = fgrid(state.board);
    match Connect4::is_terminal(state) {
        Some(outcome) => {
            return match outcome {
                GameOutcome::Win(pid) => if pid == state.players[0] {
                    1000 + depth as i32
                } else {
                    -(1000 + depth as i32)
                },
                GameOutcome::Draw => 0,
            };
        },
        None => {},
    }
    if depth == 0 {
        return evaluate(state);
    }
    let ghost turn = state.current_turn as int;
    let ghost mc = state.move_count as int;
    let ghost a0 = alpha as int;
    let ghost b0 = beta as int;
    let mut alpha = alpha;
    let mut beta = beta;
    let mut value: i32 = if is_max {
        i32::MIN
    } else {
        i32::MAX
    };
    let mut i: usize = 0;
    while i < 7
        invariant_except_break
            ab_value(g, turn, mc, state.players, depth as nat, a0, b0, is_max) == ab_scan(
                g,
                turn,
                mc,
                state.players,
                depth as nat,
                alpha as int,
                beta as int,
                is_max,
                i as int,
                value as int,
            ),
        invariant
            state.wf(),
            g == fgrid(state.board),
            turn == state.current_turn as int,
            mc == state.move_count as int,
            mc + depth < 255,
            1 <= depth,
            i <= 7,
            c4_outcome(g, mc, state.players) is None,
        ensures
            ab_value(g, turn, mc, state.players, depth as nat, a0, b0, is_max) == value,
        decreases 7 - i,
    {
        let col = col_order(i);
        assert(g[5][col as int] == state.board[5][col as int]);
        if state.board[ROWS - 1][col] == Cell::Empty {
            let mut next = *state;
            Connect4::apply_move(&mut next, state.players[state.current_turn], &Connect4Move { col: col as u8 });
            let score = alpha_beta(&next, depth - 1, alpha, beta, !is_max);
            if is_max {
                if score > value {
                    value = score;
                }
                if score > alpha {
                    alpha = score;
                }
            } else {
                if score < value {
                    value = score;
                }
                if score < beta {
                    beta = score;
                }
            }
            if alpha >= beta {
                break;
            }
        }
        i += 1;
    }
    value
}

/// The choice over search positions i..7: the first column whose five-ply
/// alpha-beta value is strictly better than the best so far.
pub open spec fn bc_scan(st: Connect4State, i: int, best_score: int, best: u8) -> u8
    decreases 7 - i,
{
    if i >= 7 || i < 0 {
        best
    } else {
        let g = fgrid(st.board);
        let col = col_at(i);
        let is_max = st.current_turn == 0;
        if g[5][col] != Cell::Empty {
            bc_scan(st, i + 1, best_score, best)
        } else {
            let v = ab_value(
                dropped(g, col, disc(st.current_turn as int)),
                1 - st.current_turn,
                st.move_count + 1,
                st.players,
                5,
                i32::MIN as int,
                i32::MAX as int,
                !is_max,
            );
            let better = if is_max {
                v > best_score
            } else {
                v < best_score
            };
            if better {
                bc_scan(st, i + 1, v, col as u8)
            } else {
                bc_scan(st, i + 1, best_score, best)
            }
        }
    }
}

/// The hard bot's column.
pub open spec fn best_column(st: Connect4State) -> u8 {
    bc_scan(st, 0, c4_start(st.current_turn == 0), 0)
}

fn best_move(state: &Connect4State) -> (mv: Connect4Move)
    requires
        state.wf(),
        state.move_count + 6 < 255,
    ensures
        mv.col == best_column(*state),
{
    let ghost g = fgrid(state.board);
    let is_max = state.current_turn == 0;
    let mut best_score: i32 = if is_max {
        i32::MIN
    } else {
        i32::MAX
    };
    let mut best_col: u8 = 0;
    let mut i: usize = 0;
    while i < 7
        invariant
            state.wf(),
            g == fgrid(state.board),
            is_max == (state.current_turn == 0),
            state.move_count + 6 < 255,
            i <= 7,
            best_column(*state) == bc_scan(*state, i as int, best_score as int, best_col),
        decreases 7 - i,
    {
        let col = col_order(i);
        assert(g[5][col as int] == state.board[5][col as int]);
        if state.board[ROWS - 1][col] == Cell::Empty {
            let mut next = *state;
            Connect4::apply_move(&mut next, state.players[state.current_turn], &Connect4Move { col: col as u8 });
            let score = alpha_beta(&next, 5, i32::MIN, i32::MAX, !is_max);
            let better = if is_max {
                score > best_score
            } else {
                score < best_score
            };
            if better {
                best_score = score;
                best_col = col as u8;
            }
        }
        i += 1;
    }
    Connect4Move { col: best_col }
}

/// A random column that is not full.
fn random_move(state: &Connect4State) -> (mv: Connect4Move)
    requires
        exists|c: int| 0 <= c < 7 && #[trigger] fgrid(state.board)[5][c] == Cell::Empty,
    ensures
        mv.col < 7,
        fgrid(state.board)[5][mv.col as int] == Cell::Empty,
{
    let ghost g = fgrid(state.board);
    let mut valid: Vec<u8> = Vec::new();
    let mut c: u8 = 0;
    while c < 7
        invariant
            g == fgrid(state.board),
            c <= 7,
            forall|j: int| 0 <= j < valid@.len() ==> (#[trigger] valid@[j]) < 7 && g[5][valid@[j] as int] == Cell::Empty,
            forall|k: int| 0 <= k < c && g[5][k] == Cell::Empty ==> #[trigger] valid@.contains(k as u8),
        decreases 7 - c,
    {
        assert(g[5][c as int] == state.board[5][c as int]);
        if state.board[ROWS - 1][c as usize] == Cell::Empty {
            let ghost before = valid@;
            valid.push(c);
            proof {
                assert forall|k: int| 0 <= k < c + 1 && g[5][k] == Cell::Empty implies #[trigger] valid@.contains(k as u8) by {
                    if k == c {
                        assert(valid@[before.len() as int] == k as u8);
                    } else {
                        assert(before.contains(k as u8));
                        let j = choose|j: int| 0 <= j < before.len() && before[j] == k as u8;
                        assert(valid@[j] == k as u8);
                    }
                }
            }
        }
        c += 1;
    }
    proof {
        let k = choose|k: int| 0 <= k < 7 && #[trigger] g[5][k] == Cell::Empty;
        assert(valid@.contains(k as u8));
    }
    match choose_item(valid.as_slice()) {
        Some(x) => {
            proof {
                let j = choose|j: int| 0 <= j < valid@.len() && valid@[j] == *x;
                assert(valid@[j] < 7);
            }
            Connect4Move { col: *x }
        },
        None => {
            assert(false);
            Connect4Move { col: 0 }
        },
    }
}

/// The bot's move: a random open column (easy) or `best_column` (hard).
pub fn bot_move(state: &Connect4State, difficulty: Difficulty) -> (mv: Connect4Move)
    requires
        state.wf(),
        state.move_count + 6 < 255,
        exists|c: int| 0 <= c < 7 && #[trigger] fgrid(state.board)[5][c] == Cell::Empty,
    ensures
        difficulty == Difficulty::Easy ==> mv.col < 7 && fgrid(state.board)[5][mv.col as int] == Cell::Empty,
        difficulty == Difficulty::Hard ==> mv.col == best_column(*state),
{
    match difficulty {
        Difficulty::Easy => random_move(state),
        Difficulty::Hard => best_move(state),
    }
}

/// The scan for the best column ends on a column with room when it starts
/// from one.
proof fn lemma_bc_scan_open(st: Connect4State, i: int, best_score: int, best: u8)
    requires
        best < 7,
        fgrid(st.board)[5][best as int] == Cell::Empty,
    ensures
        ({
            let r = bc_scan(st, i, best_score, best);
            r < 7 && fgrid(st.board)[5][r as int] == Cell::Empty
        }),
    decreases 7 - i,
{
    if i >= 7 || i < 0 {
    } else {
        let g = fgrid(st.board);
        let col = col_at(i);
        if g[5][col] != Cell::Empty {
            lemma_bc_scan_open(st, i + 1, best_score, best);
        } else {
            let v = ab_value(
                dropped(g, col, disc(st.current_turn as int)),
                1 - st.current_turn,
                st.move_count + 1,
                st.players,
                5,
                i32::MIN as int,
                i32::MAX as int,
                !(st.current_turn == 0),
            );
            lemma_bc_scan_open(st, i + 1, v, col as u8);
            lemma_bc_scan_open(st, i + 1, best_score, best);
        }
    }
}

/// On an empty board the hard bot's column has room.
pub proof fn lemma_best_column_on_empty_board(st: Connect4State)
    requires
        forall|r: int, c: int| 0 <= r < 6 && 0 <= c < 7 ==> #[trigger] fgrid(st.board)[r][c] == Cell::Empty,
    ensures
        best_column(st) < 7 && fgrid(st.board)[5][best_column(st) as int] == Cell::Empty,
{
    assert(fgrid(st.board)[5][0] == Cell::Empty);
    lemma_bc_scan_open(st, 0, c4_start(st.current_turn == 0), 0);
}

/// No line starts anywhere on a board with at most the one disc at (r0, c0).
proof fn lemma_single_disc_no_line(g: FGrid, r0: int, c0: int, n: nat, r: int)
    requires
        forall|i: int, j: int| 0 <= i < 6 && 0 <= j < 7 && !(i == r0 && j == c0) ==> #[trigger] g[i][j] == Cell::Empty,
        0 <= r < 6,
        n <= 7,
    ensures
        line_in_row(g, r, n) is None,
    decreases n,
{
    if n > 0 {
        lemma_single_disc_no_line(g, r0, c0, (n - 1) as nat, r);
        let c = n - 1;
        if g[r][c] != Cell::Empty {
            assert(r == r0 && c == c0);
            if 0 <= c + 3 < 7 {
                assert(g[r][c + 1] == Cell::Empty);
            }
            if 0 <= r + 3 < 6 {
                assert(g[r + 1][c] == Cell::Empty);
                if 0 <= c + 3 < 7 {
                    assert(g[r + 1][c + 1] == Cell::Empty);
                }
                if 0 <= c - 3 < 7 {
                    assert(g[r + 1][c - 1] == Cell::Empty);
                }
            }
        }
    }
}

proof fn lemma_single_disc_first_line(g: FGrid, r0: int, c0: int, n: nat)
    requires
        forall|i: int, j: int| 0 <= i < 6 && 0 <= j < 7 && !(i == r0 && j == c0) ==> #[trigger] g[i][j] == Cell::Empty,
        n <= 6,
    ensures
        first_line(g, n) is None,
    decreases n,
{
    if n > 0 {
        lemma_single_disc_first_line(g, r0, c0, (n - 1) as nat);
        lemma_single_disc_no_line(g, r0, c0, 7, n - 1);
    }
}

/// One disc dropped on an empty board completes no line, and one move is no
/// full board: nothing is decided.
pub proof fn lemma_one_disc_undecided(g: FGrid, c: int, v: Cell, players: [PlayerId; 2])
    requires
        g.len() == 6,
        forall|i: int| 0 <= i < 6 ==> (#[trigger] g[i]).len() == 7,
        forall|i: int, j: int| 0 <= i < 6 && 0 <= j < 7 ==> #[trigger] g[i][j] == Cell::Empty,
        0 <= c < 7,
    ensures
        c4_outcome(dropped(g, c, v), 1, players) is None,
{
    assert(drop_row(g, c, 0) == 0);
    let g1 = dropped(g, c, v);
    assert forall|i: int, j: int| 0 <= i < 6 && 0 <= j < 7 && !(i == 0 && j == c) implies #[trigger] g1[i][j]
        == Cell::Empty by {
        assert(g[i][j] == Cell::Empty);
    }
    lemma_single_disc_first_line(g1, 0, c, 6);
}


// ---------------------------------------------------------------------------
// Laws of the game's end
// ---------------------------------------------------------------------------

/// The disc `m` fills four squares in a straight line on the board: starting
/// at (r, c) and stepping by (dr, dc) along a row, a column, the up-right or
/// the up-left diagonal.
pub open spec fn four_in_line(b: [[Cell; 7]; 6], m: Cell, r: int, c: int, dr: int, dc: int) -> bool {
    &&& (dr == 0 && dc == 1) || (dr == 1 && dc == 0) || (dr == 1 && dc == 1) || (dr == 1 && dc == -1)
    &&& 0 <= r < 6 && 0 <= c < 7 && 0 <= r + 3 * dr < 6 && 0 <= c + 3 * dc < 7
    &&& b[r][c] == m && b[r + dr][c + dc] == m && b[r + 2 * dr][c + 2 * dc] == m
    &&& b[r + 3 * dr][c + 3 * dc] == m
}

/// The disc has a line of four somewhere on the board.
pub open spec fn has_four(b: [[Cell; 7]; 6], m: Cell) -> bool {
    exists|r: int, c: int, dr: int, dc: int| #[trigger] four_in_line(b, m, r, c, dr, dc)
}

/// The player who plays the disc `m` (Red: players[0], Yellow: players[1]).
pub open spec fn player_of(players: [PlayerId; 2], m: Cell) -> PlayerId {
    if m == Cell::Red {
        players[0]
    } else {
        players[1]
    }
}

/// The other player's disc.
pub open spec fn other_disc(m: Cell) -> Cell {
    if m == Cell::Red {
        Cell::Yellow
    } else {
        Cell::Red
    }
}

proof fn lemma_row_finds(g: FGrid, r: int, c: int, n: nat)
    requires
        0 <= c < n,
        line_from(g, r, c),
    ensures
        line_in_row(g, r, n) is Some,
    decreases n,
{
    if c < n - 1 {
        lemma_row_finds(g, r, c, (n - 1) as nat);
    }
}

proof fn lemma_rows_find(g: FGrid, r: int, n: nat)
    requires
        0 <= r < n,
        line_in_row(g, r, 7) is Some,
    ensures
        first_line(g, n) is Some,
    decreases n,
{
    if r < n - 1 {
        lemma_rows_find(g, r, (n - 1) as nat);
    }
}

proof fn lemma_row_sound(g: FGrid, r: int, n: nat)
    ensures
        line_in_row(g, r, n) matches Some(x) ==> exists|c: int|
            0 <= c < n && #[trigger] line_from(g, r, c) && g[r][c] == x,
    decreases n,
{
    if n > 0 {
        lemma_row_sound(g, r, (n - 1) as nat);
        if line_in_row(g, r, (n - 1) as nat) is None && line_from(g, r, n - 1) {
            assert(line_from(g, r, n - 1));
        }
    }
}

proof fn lemma_rows_sound(g: FGrid, n: nat)
    ensures
        first_line(g, n) matches Some(x) ==> exists|r: int, c: int|
            0 <= r < n && 0 <= c < 7 && #[trigger] line_from(g, r, c) && g[r][c] == x,
    decreases n,
{
    if n > 0 {
        lemma_rows_sound(g, (n - 1) as nat);
        if first_line(g, (n - 1) as nat) is None {
            lemma_row_sound(g, n - 1, 7);
            if line_in_row(g, n - 1, 7) is Some {
                let c = choose|c: int| 0 <= c < 7 && #[trigger] line_from(g, n - 1, c) && g[n - 1][c]
                    == line_in_row(g, n - 1, 7)->Some_0;
                assert(line_from(g, n - 1, c));
            }
        }
    }
}

/// A line the scan reports is a real line of four equal discs.
proof fn lemma_winner_is_a_line(b: [[Cell; 7]; 6])
    ensures
        first_line(fgrid(b), 6) matches Some(x) ==> x != Cell::Empty && has_four(b, x),
{
    let g = fgrid(b);
    assert(forall|i: int, j: int| 0 <= i < 6 && 0 <= j < 7 ==> #[trigger] g[i][j] == b[i][j]);
    lemma_rows_sound(g, 6);
    if first_line(g, 6) is Some {
        let x = first_line(g, 6)->Some_0;
        let (r, c) = choose|r: int, c: int| 0 <= r < 6 && 0 <= c < 7 && #[trigger] line_from(g, r, c) && g[r][c]
            == x;
        if four(g, r, c, 0, 1) {
            assert(four_in_line(b, x, r, c, 0, 1));
        } else if four(g, r, c, 1, 0) {
            assert(four_in_line(b, x, r, c, 1, 0));
        } else if four(g, r, c, 1, 1) {
            assert(four_in_line(b, x, r, c, 1, 1));
        } else {
            assert(four_in_line(b, x, r, c, 1, -1));
        }
    }
}

/// Four equal discs in a row, a column or either diagonal end the game with a
/// win: always for one of the two players, and for the player of that disc
/// whenever the other disc has no line of its own.
pub proof fn law_four_in_a_line_wins(st: Connect4State, m: Cell, r: int, c: int, dr: int, dc: int)
    requires
        m != Cell::Empty,
        four_in_line(st.board, m, r, c, dr, dc),
    ensures
        c4_outcome(fgrid(st.board), st.move_count as int, st.players) matches Some(GameOutcome::Win(p)) && (p
            == st.players[0] || p == st.players[1]),
        !has_four(st.board, other_disc(m)) ==> c4_outcome(fgrid(st.board), st.move_count as int, st.players)
            == Some(GameOutcome::Win(player_of(st.players, m))),
{
    let b = st.board;
    let g = fgrid(b);
    assert(forall|i: int, j: int| 0 <= i < 6 && 0 <= j < 7 ==> #[trigger] g[i][j] == b[i][j]);
    assert(four(g, r, c, dr, dc));
    assert(line_from(g, r, c));
    lemma_row_finds(g, r, c, 7);
    lemma_rows_find(g, r, 6);
    lemma_winner_is_a_line(b);
    let x = first_line(g, 6)->Some_0;
    if !has_four(b, other_disc(m)) {
        assert(x == m);
    }
}

/// Without a line for either player nobody has won: the game is drawn once
/// the board is full (42 moves) and goes on before that.
pub proof fn law_no_line_no_win(st: Connect4State)
    requires
        !has_four(st.board, Cell::Red),
        !has_four(st.board, Cell::Yellow),
    ensures
        c4_outcome(fgrid(st.board), st.move_count as int, st.players) == if st.move_count == 42 {
            Some(GameOutcome::Draw)
        } else {
            None
        },
{
    lemma_winner_is_a_line(st.board);
}

} // verus!
