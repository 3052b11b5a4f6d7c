use vstd::prelude::*;

use crate::random::choose_item;
use crate::types::{Difficulty, GameOutcome, GameSettings, PlayerId};

verus! {

#[derive(Clone, Copy, Debug, PartialEq, Eq, Structural)]
pub enum Cell {
    Empty,
    X,
    O,
}

/// A move: row and column, each 0..=2.
#[derive(Clone, Copy, Debug, PartialEq, Eq, Structural)]
pub struct TicTacToeMove {
    pub row: u8,
    pub col: u8,
}

#[derive(Clone, Copy, Debug)]
pub struct TicTacToeState {
    pub board: [[Cell; 3]; 3],
    /// players[0] plays X (moves first), players[1] plays O.
    pub players: [PlayerId; 2],
    pub current_turn: usize,
    pub move_count: u8,
}

impl TicTacToeState {
    pub open spec fn wf(&self) -> bool {
        self.current_turn < 2
    }
}

/// The engine (stateless).
pub struct TicTacToe;

pub type TGrid = Seq<Seq<Cell>>;

pub open spec fn tgrid(b: [[Cell; 3]; 3]) -> TGrid {
    b@.map_values(|row: [Cell; 3]| row@)
}

pub open spec fn tset(g: TGrid, r: int, c: int, v: Cell) -> TGrid {
    g.update(r, g[r].update(c, v))
}

/// The mark of the player to move.
pub open spec fn mark(turn: int) -> Cell {
    if turn == 0 {
        Cell::X
    } else {
        Cell::O
    }
}

/// Three equal marks on (r1, c1), (r2, c2), (r3, c3).
pub open spec fn line(g: TGrid, r1: int, c1: int, r2: int, c2: int, r3: int, c3: int) -> bool {
    g[r1][c1] != Cell::Empty && g[r1][c1] == g[r2][c2] && g[r2][c2] == g[r3][c3]
}

/// The mark of the first completed line, checking rows, then columns, then
/// the diagonal and the anti-diagonal.
pub open spec fn line_winner(g: TGrid) -> Option<Cell> {
    if line(g, 0, 0, 0, 1, 0, 2) {
        Some(g[0][0])
    } else if line(g, 1, 0, 1, 1, 1, 2) {
        Some(g[1][0])
    } else if line(g, 2, 0, 2, 1, 2, 2) {
        Some(g[2][0])
    } else if line(g, 0, 0, 1, 0, 2, 0) {
        Some(g[0][0])
    } else if line(g, 0, 1, 1, 1, 2, 1) {
        Some(g[0][1])
    } else if line(g, 0, 2, 1, 2, 2, 2) {
        Some(g[0][2])
    } else if line(g, 0, 0, 1, 1, 2, 2) {
        Some(g[0][0])
    } else if line(g, 0, 2, 1, 1, 2, 0) {
        Some(g[0][2])
    } else {
        None
    }
}

/// The outcome of a position: a completed line wins for its mark (X for
/// players[0], O for players[1]); nine moves without one is a draw.
pub open spec fn ttt_outcome(g: TGrid, move_count: int, players: [PlayerId; 2]) -> Option<GameOutcome> {
    match line_winner(g) {
        Some(Cell::X) => Some(GameOutcome::Win(players[0])),
        Some(_) => Some(GameOutcome::Win(players[1])),
        None => if move_count == 9 {
            Some(GameOutcome::Draw)
        } else {
            None
        },
    }
}

/// Why `player` may not play `mv` now (`None`: accepted).
pub open spec fn ttt_rejection(st: TicTacToeState, player: PlayerId, mv: TicTacToeMove) -> Option<Seq<char>> {
    if st.players[st.current_turn as int] != player {
        Some("not your turn"@)
    } else if mv.row > 2 || mv.col > 2 {
        Some("position out of bounds"@)
    } else if tgrid(st.board)[mv.row as int][mv.col as int] != Cell::Empty {
        Some("cell already occupied"@)
    } else {
        None
    }
}

fn set_cell(board: &mut [[Cell; 3]; 3], r: usize, c: usize, v: Cell)
    requires
        r < 3,
        c < 3,
    ensures
        tgrid(*final(board)) == tset(tgrid(*old(board)), r as int, c as int, v),
{
    board[r][c] = v;
    assert(tgrid(*board) =~~= tset(tgrid(*old(board)), r as int, c as int, v));
}

fn winner_from_cell(state: &TicTacToeState, cell: Cell) -> (o: GameOutcome)
    ensures
        o == match cell {
            Cell::X => GameOutcome::Win(state.players[0]),
            _ => GameOutcome::Win(state.players[1]),
        },
{
    match cell {
        Cell::X => GameOutcome::Win(state.players[0]),
        _ => GameOutcome::Win(state.players[1]),
    }
}

impl TicTacToe {
    /// An empty board; X (players[0]) moves first.
    pub fn initial_state(players: &[PlayerId], _settings: &GameSettings) -> (st: TicTacToeState)
        requires
            players@.len() >= 2,
        ensures
            st.wf(),
            forall|r: int, c: int| 0 <= r < 3 && 0 <= c < 3 ==> #[trigger] tgrid(st.board)[r][c] == Cell::Empty,
            st.players == [players@[0], players@[1]],
            st.current_turn == 0,
            st.move_count == 0,
    {
        TicTacToeState {
            board: [[Cell::Empty; 3]; 3],
            players: [players[0], players[1]],
            current_turn: 0,
            move_count: 0,
        }
    }

    /// Checks a move by `player` (see `ttt_rejection`).
    pub fn validate_move(state: &TicTacToeState, player: PlayerId, mv: &TicTacToeMove) -> (r: Result<(), String>)
        requires
            state.wf(),
        ensures
            match r {
                Ok(()) => ttt_rejection(*state, player, *mv).is_none(),
                Err(e) => ttt_rejection(*state, player, *mv) == Some(e@),
            },
    {
        if state.players[state.current_turn] != player {
            return Err("not your turn".to_owned());
        }
        if mv.row > 2 || mv.col > 2 {
            return Err("position out of bounds".to_owned());
        }
        assert(tgrid(state.board)[mv.row as int][mv.col as int] == state.board[mv.row as int][mv.col as int]);
        if state.board[mv.row as usize][mv.col as usize] != Cell::Empty {
            return Err("cell already occupied".to_owned());
        }
        Ok(())
    }

    /// Puts the mover's mark on the cell and passes the turn.
    pub fn apply_move(state: &mut TicTacToeState, _player: PlayerId, mv: &TicTacToeMove)
        requires
            old(state).wf(),
            mv.row <= 2,
            mv.col <= 2,
            old(state).move_count < 255,
        ensures
            final(state).wf(),
            tgrid(final(state).board) == tset(
                tgrid(old(state).board),
                mv.row as int,
                mv.col as int,
                mark(old(state).current_turn as int),
            ),
            final(state).players == old(state).players,
            final(state).move_count == old(state).move_count + 1,
            final(state).current_turn == 1 - old(state).current_turn,
    {
        let cell = if state.current_turn == 0 {
            Cell::X
        } else {
            Cell::O
        };
        set_cell(&mut state.board, mv.row as usize, mv.col as usize, cell);
        state.move_count = state.move_count + 1;
        state.current_turn = 1 - state.current_turn;
    }

    /// The outcome if the game is over (see `ttt_outcome`).
    pub fn is_terminal(state: &TicTacToeState) -> (r: Option<GameOutcome>)
        ensures
            r == ttt_outcome(tgrid(state.board), state.move_count as int, state.players),
    {
        let b = &state.board;
        let ghost g = tgrid(state.board);
        assert(forall|r: int, c: int| 0 <= r < 3 && 0 <= c < 3 ==> #[trigger] g[r][c] == b[r][c]);
        let mut row: usize = 0;
        while row < 3
            invariant
                g == tgrid(state.board),
                forall|r: int, c: int| 0 <= r < 3 && 0 <= c < 3 ==> #[trigger] g[r][c] == b[r][c],
                row <= 3,
                forall|r: int| 0 <= r < row ==> !line(g, r, 0, r, 1, r, 2),
            decreases 3 - row,
        {
            if b[row][0] != Cell::Empty && b[row][0] == b[row][1] && b[row][1] == b[row][2] {
                assert(line(g, row as int, 0, row as int, 1, row as int, 2));
                return Some(winner_from_cell(state, b[row][0]));
            }
            row += 1;
        }
        let mut col: usize = 0;
        while col < 3
            invariant
                g == tgrid(state.board),
                forall|r: int, c: int| 0 <= r < 3 && 0 <= c < 3 ==> #[trigger] g[r][c] == b[r][c],
                col <= 3,
                forall|r: int| 0 <= r < 3 ==> !line(g, r, 0, r, 1, r, 2),
                forall|c: int| 0 <= c < col ==> !line(g, 0, c, 1, c, 2, c),
            decreases 3 - col,
        {
            if b[0][col] != Cell::Empty && b[0][col] == b[1][col] && b[1][col] == b[2][col] {
                assert(line(g, 0, col as int, 1, col as int, 2, col as int));
                return Some(winner_from_cell(state, b[0][col]));
            }
            col += 1;
        }
        assert(!line(g, 0, 0, 0, 1, 0, 2) && !line(g, 1, 0, 1, 1, 1, 2) && !line(g, 2, 0, 2, 1, 2, 2));
        assert(!line(g, 0, 0, 1, 0, 2, 0) && !line(g, 0, 1, 1, 1, 2, 1) && !line(g, 0, 2, 1, 2, 2, 2));
        if b[0][0] != Cell::Empty && b[0][0] == b[1][1] && b[1][1] == b[2][2] {
            return Some(winner_from_cell(state, b[0][0]));
        }
        if b[0][2] != Cell::Empty && b[0][2] == b[1][1] && b[1][1] == b[2][0] {
            return Some(winner_from_cell(state, b[0][2]));
        }
        if state.move_count == 9 {
            return Some(GameOutcome::Draw);
        }
        None
    }

    /// The player whose turn it is.
    pub fn current_player(state: &TicTacToeState) -> (p: PlayerId)
        requires
            state.wf(),
        ensures
            p == state.players[state.current_turn as int],
    {
        state.players[state.current_turn]
    }
}


// ---------------------------------------------------------------------------
// Bot
// ---------------------------------------------------------------------------

pub open spec fn shaped3(g: TGrid) -> bool {
    g.len() == 3 && forall|r: int| 0 <= r < 3 ==> (#[trigger] g[r]).len() == 3
}

pub open spec fn empty_at(g: TGrid, r: int, c: int) -> nat {
    if g[r][c] == Cell::Empty {
        1
    } else {
        0
    }
}

/// Number of empty cells.
pub open spec fn empties(g: TGrid) -> nat {
    empty_at(g, 0, 0) + empty_at(g, 0, 1) + empty_at(g, 0, 2) + empty_at(g, 1, 0) + empty_at(g, 1, 1)
        + empty_at(g, 1, 2) + empty_at(g, 2, 0) + empty_at(g, 2, 1) + empty_at(g, 2, 2)
}

/// Score of a finished game for X: a win is worth more the sooner it comes.
pub open spec fn final_score(o: GameOutcome, move_count: int, players: [PlayerId; 2]) -> int {
    match o {
        GameOutcome::Win(pid) => if pid == players[0] {
            10 - move_count
        } else {
            move_count - 10
        },
        GameOutcome::Draw => 0,
    }
}

pub open spec fn start_best(is_max: bool) -> int {
    if is_max {
        i32::MIN as int
    } else {
        i32::MAX as int
    }
}

pub open spec fn pick(is_max: bool, best: int, v: int) -> int {
    if is_max {
        if v > best {
            v
        } else {
            best
        }
    } else {
        if v < best {
            v
        } else {
            best
        }
    }
}

/// The minimax value of a position for X (maximising) against O.
pub open spec fn mm_value(g: TGrid, turn: int, mc: int, players: [PlayerId; 2], is_max: bool) -> int
    decreases empties(g), 10int,
    when shaped3(g)
{
    match ttt_outcome(g, mc, players) {
        Some(o) => final_score(o, mc, players),
        None => mm_scan(g, turn, mc, players, is_max, 0, start_best(is_max)),
    }
}

/// Folding the values of the children reached by playing cells k..9 (row by
/// row) into `best`.
pub open spec fn mm_scan(
    g: TGrid,
    turn: int,
    mc: int,
    players: [PlayerId; 2],
    is_max: bool,
    k: int,
    best: int,
) -> int
    decreases empties(g), 9 - k,
    when shaped3(g) && 0 <= k
{
    if k >= 9 {
        best
    } else {
        let r = k / 3;
        let c = k % 3;
        if g[r][c] != Cell::Empty {
            mm_scan(g, turn, mc, players, is_max, k + 1, best)
        } else {
            let v = mm_value(tset(g, r, c, mark(turn)), 1 - turn, mc + 1, players, !is_max);
            mm_scan(g, turn, mc, players, is_max, k + 1, pick(is_max, best, v))
        }
    }
}

pub proof fn lemma_tgrid_shaped(b: [[Cell; 3]; 3])
    ensures
        shaped3(tgrid(b)),
{
}

/// Filling an empty cell leaves one empty cell fewer.
pub proof fn lemma_tset_empties(g: TGrid, r: int, c: int, v: Cell)
    requires
        shaped3(g),
        0 <= r < 3,
        0 <= c < 3,
        v != Cell::Empty,
        g[r][c] == Cell::Empty,
    ensures
        empties(tset(g, r, c, v)) + 1 == empties(g),
        shaped3(tset(g, r, c, v)),
{
}

proof fn lemma_tset_shaped(g: TGrid, r: int, c: int, v: Cell)
    requires
        shaped3(g),
        0 <= r < 3,
        0 <= c < 3,
    ensures
        shaped3(tset(g, r, c, v)),
        v != Cell::Empty && g[r][c] == Cell::Empty ==> empties(tset(g, r, c, v)) + 1 == empties(g),
{
}

fn pick_exec(is_max: bool, best: i32, v: i32) -> (r: i32)
    ensures
        r == pick(is_max, best as int, v as int),
{
    if is_max {
        if v > best {
            v
        } else {
            best
        }
    } else {
        if v < best {
            v
        } else {
            best
        }
    }
}

/// The minimax value of the position (see `mm_value`).
fn minimax(state: &TicTacToeState, is_max: bool) -> (v: i32)
    requires
        state.wf(),
        state.move_count + empties(tgrid(state.board)) < 255,
    ensures
        v == mm_value(
            tgrid(state.board),
            state.current_turn as int,
            state.move_count as int,
            state.players,
            is_max,
        ),
    decreases empties(tgrid(state.board)),
{
    let ghost g = tgrid(state.board);
    proof {
        lemma_tgrid_shaped(state.board);
    }
    match TicTacToe::is_terminal(state) {
        Some(outcome) => {
            return match outcome {
                GameOutcome::Win(pid) => if pid == state.players[0] {
                    10 - state.move_count as i32
                } else {
                    state.move_count as i32 - 10
                },
                GameOutcome::Draw => 0,
            };
        },
        None => {},
    }
    let ghost turn = state.current_turn as int;
    let ghost mc = state.move_count as int;
    let mut best: i32 = if is_max {
        i32::MIN
    } else {
        i32::MAX
    };
    let mut row: u8 = 0;
    while row < 3
        invariant
            state.wf(),
            g == tgrid(state.board),
            shaped3(g),
            turn == state.current_turn as int,
            mc == state.move_count as int,
            mc + empties(g) < 255,
            ttt_outcome(g, mc, state.players) is None,
            row <= 3,
            mm_value(g, turn, mc, state.players, is_max) == mm_scan(
                g,
                turn,
                mc,
                state.players,
                is_max,
                3 * row as int,
                best as int,
            ),
        decreases 3 - row,
    {
        let mut col: u8 = 0;
        while col < 3
            invariant
                state.wf(),
                g == tgrid(state.board),
                shaped3(g),
                turn == state.current_turn as int,
                mc == state.move_count as int,
                mc + empties(g) < 255,
                row < 3,
                col <= 3,
                mm_value(g, turn, mc, state.players, is_max) == mm_scan(
                    g,
                    turn,
                    mc,
                    state.players,
                    is_max,
                    3 * row + col,
                    best as int,
                ),
            decreases 3 - col,
        {
            let k: Ghost<int> = Ghost(3 * row + col);
            assert(k@ / 3 == row as int && k@ % 3 == col as int);
            assert(g[row as int][col as int] == state.board[row as int][col as int]);
            if state.board[row as usize][col as usize] == Cell::Empty {
                let mut next = *state;
                let mv = TicTacToeMove { row, col };
                proof {
                    lemma_tset_shaped(g, row as int, col as int, mark(turn));
                }
                TicTacToe::apply_move(&mut next, state.players[state.current_turn], &mv);
                let score = minimax(&next, !is_max);
                best = pick_exec(is_max, best, score);
            }
            col += 1;
        }
        row += 1;
    }
    best
}

/// The choice among cells k..9: the first child with a strictly better
/// minimax value than the best so far.
pub open spec fn bm_scan(st: TicTacToeState, k: int, best_score: int, best: (u8, u8)) -> (u8, u8)
    decreases 9 - k,
{
    if k >= 9 || k < 0 {
        best
    } else {
        let g = tgrid(st.board);
        let r = k / 3;
        let c = k % 3;
        let is_max = st.current_turn == 0;
        if g[r][c] != Cell::Empty {
            bm_scan(st, k + 1, best_score, best)
        } else {
            let v = mm_value(
                tset(g, r, c, mark(st.current_turn as int)),
                1 - st.current_turn,
                st.move_count + 1,
                st.players,
                !is_max,
            );
            let better = if is_max {
                v > best_score
            } else {
                v < best_score
            };
            if better {
                bm_scan(st, k + 1, v, (r as u8, c as u8))
            } else {
                bm_scan(st, k + 1, best_score, best)
            }
        }
    }
}

/// The hard bot's cell: the first cell, row by row, whose minimax value is
/// best for the mover (X maximises, O minimises).
pub open spec fn best_cell(st: TicTacToeState) -> (u8, u8) {
    bm_scan(st, 0, start_best(st.current_turn == 0), (0, 0))
}

fn best_move(state: &TicTacToeState) -> (mv: TicTacToeMove)
    requires
        state.wf(),
        state.move_count + empties(tgrid(state.board)) < 255,
    ensures
        (mv.row, mv.col) == best_cell(*state),
{
    let ghost g = tgrid(state.board);
    proof {
        lemma_tgrid_shaped(state.board);
    }
    let is_max = state.current_turn == 0;
    let mut best_score: i32 = if is_max {
        i32::MIN
    } else {
        i32::MAX
    };
    let mut best = TicTacToeMove { row: 0, col: 0 };
    let mut row: u8 = 0;
    while row < 3
        invariant
            state.wf(),
            g == tgrid(state.board),
            shaped3(g),
            is_max == (state.current_turn == 0),
            state.move_count + empties(g) < 255,
            row <= 3,
            best_cell(*state) == bm_scan(*state, 3 * row as int, best_score as int, (best.row, best.col)),
        decreases 3 - row,
    {
        let mut col: u8 = 0;
        while col < 3
            invariant
                state.wf(),
                g == tgrid(state.board),
                shaped3(g),
                is_max == (state.current_turn == 0),
                state.move_count + empties(g) < 255,
                row < 3,
                col <= 3,
                best_cell(*state) == bm_scan(*state, 3 * row + col, best_score as int, (best.row, best.col)),
            decreases 3 - col,
        {
            let k: Ghost<int> = Ghost(3 * row + col);
            assert(k@ / 3 == row as int && k@ % 3 == col as int);
            assert(g[row as int][col as int] == state.board[row as int][col as int]);
            if state.board[row as usize][col as usize] == Cell::Empty {
                let mut next = *state;
                let mv = TicTacToeMove { row, col };
                proof {
                    lemma_tset_shaped(g, row as int, col as int, mark(state.current_turn as int));
                }
                TicTacToe::apply_move(&mut next, state.players[state.current_turn], &mv);
                let score = minimax(&next, !is_max);
                let better = if is_max {
                    score > best_score
                } else {
                    score < best_score
                };
                if better {
                    best_score = score;
                    best = mv;
                }
            }
            col += 1;
        }
        row += 1;
    }
    best
}

/// A random empty cell.
fn random_move(state: &TicTacToeState) -> (mv: TicTacToeMove)
    requires
        empties(tgrid(state.board)) > 0,
    ensures
        mv.row <= 2 && mv.col <= 2,
        tgrid(state.board)[mv.row as int][mv.col as int] == Cell::Empty,
{
    let ghost g = tgrid(state.board);
    let mut empty: Vec<(u8, u8)> = Vec::new();
    let mut row: u8 = 0;
    while row < 3
        invariant
            g == tgrid(state.board),
            row <= 3,
            forall|j: int|
                0 <= j < empty@.len() ==> (#[trigger] empty@[j]).0 <= 2 && empty@[j].1 <= 2
                    && g[empty@[j].0 as int][empty@[j].1 as int] == Cell::Empty,
            forall|r: int, c: int|
                0 <= r < row && 0 <= c < 3 && g[r][c] == Cell::Empty ==> #[trigger] empty@.contains(
                    (r as u8, c as u8),
                ),
        decreases 3 - row,
    {
        let mut col: u8 = 0;
        while col < 3
            invariant
                g == tgrid(state.board),
                row < 3,
                col <= 3,
                forall|j: int|
                    0 <= j < empty@.len() ==> (#[trigger] empty@[j]).0 <= 2 && empty@[j].1 <= 2
                        && g[empty@[j].0 as int][empty@[j].1 as int] == Cell::Empty,
                forall|r: int, c: int|
                    ((0 <= r < row && 0 <= c < 3) || (r == row && 0 <= c < col)) && g[r][c]
                        == Cell::Empty ==> #[trigger] empty@.contains((r as u8, c as u8)),
            decreases 3 - col,
        {
            assert(g[row as int][col as int] == state.board[row as int][col as int]);
            if state.board[row as usize][col as usize] == Cell::Empty {
                let ghost before = empty@;
                empty.push((row, col));
                proof {
                    assert(empty@[before.len() as int] == (row, col));
                    assert forall|r: int, c: int|
                        ((0 <= r < row && 0 <= c < 3) || (r == row && 0 <= c < col + 1)) && g[r][c]
                            == Cell::Empty implies #[trigger] empty@.contains((r as u8, c as u8)) by {
                        if r == row && c == col {
                            assert(empty@[before.len() as int] == (r as u8, c as u8));
                        } else {
                            assert(before.contains((r as u8, c as u8)));
                            let j = choose|j: int| 0 <= j < before.len() && before[j] == (r as u8, c as u8);
                            assert(empty@[j] == (r as u8, c as u8));
                        }
                    }
                }
            }
            col += 1;
        }
        row += 1;
    }
    proof {
        lemma_tgrid_shaped(state.board);
        let (r, c) = if g[0][0] == Cell::Empty {
            (0int, 0int)
        } else if g[0][1] == Cell::Empty {
            (0, 1)
        } else if g[0][2] == Cell::Empty {
            (0, 2)
        } else if g[1][0] == Cell::Empty {
            (1, 0)
        } else if g[1][1] == Cell::Empty {
            (1, 1)
        } else if g[1][2] == Cell::Empty {
            (1, 2)
        } else if g[2][0] == Cell::Empty {
            (2, 0)
        } else if g[2][1] == Cell::Empty {
            (2, 1)
        } else {
            (2, 2)
        };
        assert(g[r][c] == Cell::Empty);
        assert(empty@.contains((r as u8, c as u8)));
    }
    match choose_item(empty.as_slice()) {
        Some(p) => {
            proof {
                let j = choose|j: int| 0 <= j < empty@.len() && empty@[j] == *p;
                assert(empty@[j].0 <= 2);
            }
            TicTacToeMove { row: p.0, col: p.1 }
        },
        None => {
            assert(false);
            TicTacToeMove { row: 0, col: 0 }
        },
    }
}

/// The bot's move: a random empty cell (easy) or `best_cell` (hard).
pub fn bot_move(state: &TicTacToeState, difficulty: Difficulty) -> (mv: TicTacToeMove)
    requires
        state.wf(),
        state.move_count + empties(tgrid(state.board)) < 255,
        empties(tgrid(state.board)) > 0,
    ensures
        difficulty == Difficulty::Easy ==> mv.row <= 2 && mv.col <= 2 && tgrid(state.board)[mv.row as int][mv.col as int]
            == Cell::Empty,
        difficulty == Difficulty::Hard ==> (mv.row, mv.col) == best_cell(*state),
{
    match difficulty {
        Difficulty::Easy => random_move(state),
        Difficulty::Hard => best_move(state),
    }
}

/// The scan for the best cell ends on an empty cell of the board when it
/// starts from one.
proof fn lemma_bm_scan_empty(st: TicTacToeState, k: int, best_score: int, best: (u8, u8))
    requires
        best.0 < 3 && best.1 < 3,
        tgrid(st.board)[best.0 as int][best.1 as int] == Cell::Empty,
    ensures
        ({
            let r = bm_scan(st, k, best_score, best);
            r.0 < 3 && r.1 < 3 && tgrid(st.board)[r.0 as int][r.1 as int] == Cell::Empty
        }),
    decreases 9 - k,
{
    if k >= 9 || k < 0 {
    } else {
        let g = tgrid(st.board);
        let r = k / 3;
        let c = k % 3;
        if g[r][c] != Cell::Empty {
            lemma_bm_scan_empty(st, k + 1, best_score, best);
        } else {
            let v = mm_value(
                tset(g, r, c, mark(st.current_turn as int)),
                1 - st.current_turn,
                st.move_count + 1,
                st.players,
                !(st.current_turn == 0),
            );
            lemma_bm_scan_empty(st, k + 1, v, (r as u8, c as u8));
            lemma_bm_scan_empty(st, k + 1, best_score, best);
        }
    }
}

/// On an empty board the hard bot's cell is an empty cell of the board.
pub proof fn lemma_best_cell_on_empty_board(st: TicTacToeState)
    requires
        forall|r: int, c: int| 0 <= r < 3 && 0 <= c < 3 ==> #[trigger] tgrid(st.board)[r][c] == Cell::Empty,
    ensures
        ({
            let b = best_cell(st);
            b.0 < 3 && b.1 < 3 && tgrid(st.board)[b.0 as int][b.1 as int] == Cell::Empty
        }),
{
    assert(tgrid(st.board)[0][0] == Cell::Empty);
    lemma_bm_scan_empty(st, 0, start_best(st.current_turn == 0), (0, 0));
}

/// One mark on an otherwise empty board completes no line, and one move is
/// no full board: nothing is decided.
pub proof fn lemma_one_mark_undecided(g: TGrid, r: int, c: int, v: Cell, players: [PlayerId; 2])
    requires
        shaped3(g),
        forall|i: int, j: int| 0 <= i < 3 && 0 <= j < 3 ==> #[trigger] g[i][j] == Cell::Empty,
        0 <= r < 3,
        0 <= c < 3,
    ensures
        ttt_outcome(tset(g, r, c, v), 1, players) is None,
{
    let g1 = tset(g, r, c, v);
    assert forall|i: int, j: int| 0 <= i < 3 && 0 <= j < 3 && !(i == r && j == c) implies #[trigger] g1[i][j]
        == Cell::Empty by {
        assert(g[i][j] == Cell::Empty);
    }
    assert(line_winner(g1) is None);
}


// ---------------------------------------------------------------------------
// Laws of the game's end
// ---------------------------------------------------------------------------

/// The mark `m` fills three squares in a straight line on the board: starting
/// at (r, c) and stepping by (dr, dc) along a row, a column or a diagonal.
pub open spec fn three_in_line(b: [[Cell; 3]; 3], m: Cell, r: int, c: int, dr: int, dc: int) -> bool {
    &&& (dr == 0 && dc == 1) || (dr == 1 && dc == 0) || (dr == 1 && dc == 1) || (dr == 1 && dc == -1)
    &&& 0 <= r < 3 && 0 <= c < 3 && 0 <= r + 2 * dr < 3 && 0 <= c + 2 * dc < 3
    &&& b[r][c] == m && b[r + dr][c + dc] == m && b[r + 2 * dr][c + 2 * dc] == m
}

/// The mark has a line somewhere on the board.
pub open spec fn has_three(b: [[Cell; 3]; 3], m: Cell) -> bool {
    exists|r: int, c: int, dr: int, dc: int| #[trigger] three_in_line(b, m, r, c, dr, dc)
}

/// The player who plays the mark `m` (X: players[0], O: players[1]).
pub open spec fn player_of(players: [PlayerId; 2], m: Cell) -> PlayerId {
    if m == Cell::X {
        players[0]
    } else {
        players[1]
    }
}

/// The other player's mark.
pub open spec fn other_mark(m: Cell) -> Cell {
    if m == Cell::X {
        Cell::O
    } else {
        Cell::X
    }
}

/// A line the scan reports is a real line of three equal marks.
proof fn lemma_winner_is_a_line(b: [[Cell; 3]; 3])
    ensures
        line_winner(tgrid(b)) matches Some(x) ==> x != Cell::Empty && has_three(b, x),
{
    let g = tgrid(b);
    assert(forall|r: int, c: int| 0 <= r < 3 && 0 <= c < 3 ==> #[trigger] g[r][c] == b[r][c]);
    if line(g, 0, 0, 0, 1, 0, 2) {
        assert(three_in_line(b, g[0][0], 0, 0, 0, 1));
    } else if line(g, 1, 0, 1, 1, 1, 2) {
        assert(three_in_line(b, g[1][0], 1, 0, 0, 1));
    } else if line(g, 2, 0, 2, 1, 2, 2) {
        assert(three_in_line(b, g[2][0], 2, 0, 0, 1));
    } else if line(g, 0, 0, 1, 0, 2, 0) {
        assert(three_in_line(b, g[0][0], 0, 0, 1, 0));
    } else if line(g, 0, 1, 1, 1, 2, 1) {
        assert(three_in_line(b, g[0][1], 0, 1, 1, 0));
    } else if line(g, 0, 2, 1, 2, 2, 2) {
        assert(three_in_line(b, g[0][2], 0, 2, 1, 0));
    } else if line(g, 0, 0, 1, 1, 2, 2) {
        assert(three_in_line(b, g[0][0], 0, 0, 1, 1));
    } else if line(g, 0, 2, 1, 1, 2, 0) {
        assert(three_in_line(b, g[0][2], 0, 2, 1, -1));
    }
}

/// Three equal marks in any row, any column or either diagonal end the game
/// with a win: always for one of the two players, and for the player of that
/// mark whenever the other mark has no line of its own.
pub proof fn law_three_in_a_line_wins(st: TicTacToeState, m: Cell, r: int, c: int, dr: int, dc: int)
    requires
        m != Cell::Empty,
        three_in_line(st.board, m, r, c, dr, dc),
    ensures
        ttt_outcome(tgrid(st.board), st.move_count as int, st.players) matches Some(GameOutcome::Win(p)) && (p
            == st.players[0] || p == st.players[1]),
        !has_three(st.board, other_mark(m)) ==> ttt_outcome(tgrid(st.board), st.move_count as int, st.players)
            == Some(GameOutcome::Win(player_of(st.players, m))),
{
    let b = st.board;
    let g = tgrid(b);
    assert(forall|i: int, j: int| 0 <= i < 3 && 0 <= j < 3 ==> #[trigger] g[i][j] == b[i][j]);
    if dr == 0 {
        assert(line(g, r, 0, r, 1, r, 2));
    } else if dc == 0 {
        assert(line(g, 0, c, 1, c, 2, c));
    } else if dc == 1 {
        assert(line(g, 0, 0, 1, 1, 2, 2));
    } else {
        assert(line(g, 0, 2, 1, 1, 2, 0));
    }
    assert(line_winner(g) is Some);
    lemma_winner_is_a_line(b);
    let x = line_winner(g)->Some_0;
    if !has_three(b, other_mark(m)) {
        assert(x == m);
    }
}

/// Without a line for either player nobody has won: the game is drawn once
/// the board is full (9 moves) and goes on before that.
pub proof fn law_no_line_no_win(st: TicTacToeState)
    requires
        !has_three(st.board, Cell::X),
        !has_three(st.board, Cell::O),
    ensures
        ttt_outcome(tgrid(st.board), st.move_count as int, st.players) == if st.move_count == 9 {
            Some(GameOutcome::Draw)
        } else {
            None
        },
{
    lemma_winner_is_a_line(st.board);
}

} // verus!
