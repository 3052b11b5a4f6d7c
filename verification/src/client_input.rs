//! The client's reactions to key presses and to network events: each
//! handler updates the `App` and returns what must be sent to the server.
use vstd::prelude::*;

use crate::checkers::CheckersMove;
use crate::chess::{self, ChessMove, PieceKind};
use crate::client_app::{
    chess_accepts, chess_input_rest, chess_submit_outcome, checkers_input_rest, client_state_wf, confirm_outcome,
    delta_outcome, login_form_problem, our_turn, translated, leave_solo_game_outcome, on_room_left_outcome,
    on_auth_success_outcome, on_auth_failure_outcome, update_rooms_outcome, on_room_joined_outcome,
    on_game_state_outcome, on_game_over_outcome, on_player_joined_outcome, on_player_left_outcome,
    on_rematch_accepted_outcome, on_rematch_declined_outcome, solo_move_outcome, solo_start_outcome, App, CheckersInputStage,
    ChessInputState, ClientGameState, GameMode, LoginField, LoginMode, Screen,
};
use crate::messages::{RoomSummary, ServerMsg};
use crate::snake::SnakeDelta;
use crate::types::{Difficulty, GameOutcome, PlayerId, PlayerInfo, RoomState};
use crate::connect4::Connect4Move;
use crate::snake::{self, opposite_of, Direction, SnakeInput};
use crate::tictactoe::TicTacToeMove;
use crate::types::{GameSettings, GameType, RoomId};

verus! {

/// A key press.
#[derive(Clone, Copy, Debug, PartialEq, Eq, Structural)]
pub enum Key {
    Char(char),
    Enter,
    Esc,
    Tab,
    Backspace,
    Up,
    Down,
    Left,
    Right,
    F(u8),
    Other,
}

/// A move for the server.
#[derive(Clone, Debug)]
pub enum GameAction {
    TicTacToe(TicTacToeMove),
    Connect4(Connect4Move),
    Checkers(CheckersMove),
    Chess(ChessMove),
    Snake(SnakeInput),
}

/// A request for the network side.
#[derive(Clone, Debug)]
pub enum NetCommand {
    Register { server_url: String, username: String, password: String },
    Login { server_url: String, username: String, password: String },
    AuthWithToken { server_url: String, token: String },
    ListRooms,
    CreateRoom { game_type: GameType, settings: GameSettings },
    JoinRoom { room_id: RoomId },
    LeaveRoom,
    GameAction { action: GameAction },
    RequestRematch,
    RematchResponse { accept: bool },
    Disconnect,
}

/// The Snake direction a key asks for: arrows or WASD.
pub open spec fn key_direction(k: Key) -> Option<Direction> {
    match k {
        Key::Up => Some(Direction::Up),
        Key::Char('w') => Some(Direction::Up),
        Key::Char('W') => Some(Direction::Up),
        Key::Down => Some(Direction::Down),
        Key::Char('s') => Some(Direction::Down),
        Key::Char('S') => Some(Direction::Down),
        Key::Left => Some(Direction::Left),
        Key::Char('a') => Some(Direction::Left),
        Key::Char('A') => Some(Direction::Left),
        Key::Right => Some(Direction::Right),
        Key::Char('d') => Some(Direction::Right),
        Key::Char('D') => Some(Direction::Right),
        _ => None,
    }
}

fn direction_of_key(k: Key) -> (r: Option<Direction>)
    ensures
        r == key_direction(k),
{
    match k {
        Key::Up => Some(Direction::Up),
        Key::Down => Some(Direction::Down),
        Key::Left => Some(Direction::Left),
        Key::Right => Some(Direction::Right),
        Key::Char(c) => {
            if c == 'w' || c == 'W' {
                Some(Direction::Up)
            } else if c == 's' || c == 'S' {
                Some(Direction::Down)
            } else if c == 'a' || c == 'A' {
                Some(Direction::Left)
            } else if c == 'd' || c == 'D' {
                Some(Direction::Right)
            } else {
                None
            }
        },
        _ => None,
    }
}

/// Whether `b` reverses `a`.
pub fn is_opposite(a: Direction, b: Direction) -> (r: bool)
    ensures
        r == (b == opposite_of(a)),
{
    b == a.opposite()
}

/// A Snake key is ignored when it would reverse our snake.
pub open spec fn reverses_us(a: App, d: Direction) -> bool {
    &&& a.game_state matches Some(ClientGameState::Snake(s))
    &&& a.my_player_id matches Some(me)
    &&& snake::snake_of(s.snakes@, me) matches Some(sn)
    &&& sn.direction == opposite_of(d)
}

/// The command sending `action`.
pub open spec fn send_action(action: GameAction) -> Option<NetCommand> {
    Some(NetCommand::GameAction { action })
}

/// A cursor coordinate moved by one towards `up` (bounded by `max`), or
/// left as it is at the edge.
pub open spec fn stepped(v: u8, up: bool, max: u8) -> u8 {
    if up {
        if v < max {
            (v + 1) as u8
        } else {
            v
        }
    } else {
        if v > 0 {
            (v - 1) as u8
        } else {
            v
        }
    }
}

fn step_value(v: u8, up: bool, max: u8) -> (r: u8)
    ensures
        r == stepped(v, up, max),
{
    if up {
        if v < max {
            v + 1
        } else {
            v
        }
    } else {
        if v > 0 {
            v - 1
        } else {
            v
        }
    }
}

impl App {
    /// A key in a Snake game: a direction (arrows or WASD) that does not
    /// reverse our snake is queued; online, a changed direction is sent and
    /// remembered as sent.
    fn would_reverse(&self, d: Direction) -> (b: bool)
        ensures
            b == reverses_us(*self, d),
    {
        match (&self.game_state, self.my_player_id) {
            (Some(ClientGameState::Snake(state)), Some(me)) => match snake::find_snake(&state.snakes, me) {
                Some(i) => is_opposite(state.snakes[i].direction, d),
                None => false,
            },
            _ => false,
        }
    }

    pub fn handle_snake_key(&mut self, key: Key) -> (r: Option<NetCommand>)
        ensures
            snake_key_outcome(*old(self), *final(self), key, r),
    {
        let new_dir = match direction_of_key(key) {
            Some(d) => d,
            None => {
                return None;
            },
        };
        if self.would_reverse(new_dir) {
            return None;
        }
        let changed = self.snake_queue_direction(new_dir);
        match self.game_mode {
            GameMode::Online => {
                if changed {
                    self.snake_last_sent_direction = Some(new_dir);
                    return Some(NetCommand::GameAction { action: GameAction::Snake(SnakeInput { direction: new_dir }) });
                }
                None
            },
            _ => None,
        }
    }

    /// A key in a Tic-Tac-Toe game: arrows move the cursor on the 3x3 board;
    /// `Enter` on our turn plays the move (solo, see `solo_move_outcome`) or
    /// sends it (online).
    pub fn handle_tictactoe_key(&mut self, key: Key) -> (r: Option<NetCommand>)
        requires
            old(self).wf(),
        ensures
            final(self).wf(),
            ttt_key_outcome(*old(self), *final(self), key, r),
    {
        match key {
            Key::Up => {
                self.cursor_row = step_value(self.cursor_row, false, 2);
                None
            },
            Key::Down => {
                self.cursor_row = step_value(self.cursor_row, true, 2);
                None
            },
            Key::Left => {
                self.cursor_col = step_value(self.cursor_col, false, 2);
                None
            },
            Key::Right => {
                self.cursor_col = step_value(self.cursor_col, true, 2);
                None
            },
            Key::Enter => {
                if !self.is_our_turn() {
                    return None;
                }
                match self.game_mode {
                    GameMode::Online => Some(
                        NetCommand::GameAction {
                            action: GameAction::TicTacToe(TicTacToeMove { row: self.cursor_row, col: self.cursor_col }),
                        },
                    ),
                    _ => {
                        let (row, col) = (self.cursor_row, self.cursor_col);
                        self.play_solo_move(row, col);
                        None
                    },
                }
            },
            _ => None,
        }
    }

    /// A key in a Connect 4 game: left and right move the column cursor;
    /// `Enter` on our turn drops in that column (solo) or sends the move
    /// (online).
    pub fn handle_connect4_key(&mut self, key: Key) -> (r: Option<NetCommand>)
        requires
            old(self).wf(),
        ensures
            final(self).wf(),
            c4_key_outcome(*old(self), *final(self), key, r),
    {
        match key {
            Key::Left => {
                self.cursor_col = step_value(self.cursor_col, false, 6);
                None
            },
            Key::Right => {
                self.cursor_col = step_value(self.cursor_col, true, 6);
                None
            },
            Key::Enter => {
                if !self.is_our_turn() {
                    return None;
                }
                match self.game_mode {
                    GameMode::Online => Some(
                        NetCommand::GameAction { action: GameAction::Connect4(Connect4Move { col: self.cursor_col }) },
                    ),
                    _ => {
                        let col = self.cursor_col;
                        self.play_solo_move(0, col);
                        None
                    },
                }
            },
            _ => None,
        }
    }

    /// A key in a Checkers game: arrows move the cursor one square on the
    /// board, `Backspace` or `c` drops the selection, `Enter` on our turn
    /// confirms (`confirm_outcome`); a move completed online is sent.
    pub fn handle_checkers_key(&mut self, key: Key) -> (r: Option<NetCommand>)
        requires
            old(self).wf(),
        ensures
            final(self).wf(),
            checkers_key_outcome(*old(self), *final(self), key, r),
    {
        match key {
            Key::Up => {
                self.checkers_cursor_step(-1, 0);
                None
            },
            Key::Down => {
                self.checkers_cursor_step(1, 0);
                None
            },
            Key::Left => {
                self.checkers_cursor_step(0, -1);
                None
            },
            Key::Right => {
                self.checkers_cursor_step(0, 1);
                None
            },
            Key::Backspace => {
                self.checkers_cancel_selection();
                None
            },
            Key::Char(c) => {
                if c == 'c' || c == 'C' {
                    self.checkers_cancel_selection();
                }
                None
            },
            Key::Enter => self.checkers_enter(),
            _ => None,
        }
    }

    fn checkers_enter(&mut self) -> (r: Option<NetCommand>)
        requires
            old(self).wf(),
        ensures
            final(self).wf(),
            checkers_enter_outcome(*old(self), *final(self), r),
    {
        if !self.is_our_turn() || self.cursor_row >= 8 || self.cursor_col >= 8 {
            return None;
        }
        let ghost a0 = *self;
        let mode = self.game_mode;
        let done = self.checkers_confirm();
        let r = match done {
            Some(mv) => match mode {
                GameMode::Online => Some(NetCommand::GameAction { action: GameAction::Checkers(mv) }),
                _ => None,
            },
            None => None,
        };
        assert(confirm_outcome(a0, *self, done) && r == confirmed_command(a0, done));
        r
    }
}

/// What is sent after `Enter` completed `m`: online, the move.
pub open spec fn confirmed_command(a0: App, m: Option<CheckersMove>) -> Option<NetCommand> {
    match m {
        Some(mv) => if a0.game_mode == GameMode::Online {
            send_action(GameAction::Checkers(mv))
        } else {
            None
        },
        None => None,
    }
}

/// `Enter` in a Checkers game: off our turn (or with the cursor off the
/// board) nothing happens; otherwise it confirms (`confirm_outcome`) and a
/// move completed online is sent.
pub open spec fn checkers_enter_outcome(a0: App, a1: App, r: Option<NetCommand>) -> bool {
    if !our_turn(a0) || a0.cursor_row >= 8 || a0.cursor_col >= 8 {
        r is None && a1 == a0
    } else {
        exists|m: Option<CheckersMove>| #[trigger] confirm_outcome(a0, a1, m) && r == confirmed_command(a0, m)
    }
}

/// The cursor after a checkers step by (`dr`, `dc`): moved when it stays on
/// the board, else unchanged.
pub open spec fn checkers_stepped(a0: App, a1: App, dr: int, dc: int) -> bool {
    let r = a0.cursor_row + dr;
    let c = a0.cursor_col + dc;
    if 0 <= r < 8 && 0 <= c < 8 {
        a1 == (App { cursor_row: r as u8, cursor_col: c as u8, ..a0 })
    } else {
        a1 == a0
    }
}

/// What a key does in a Checkers game (see `App::handle_checkers_key`).
pub open spec fn checkers_key_outcome(a0: App, a1: App, key: Key, r: Option<NetCommand>) -> bool {
    if key == Key::Up {
        r is None && checkers_stepped(a0, a1, -1, 0)
    } else if key == Key::Down {
        r is None && checkers_stepped(a0, a1, 1, 0)
    } else if key == Key::Left {
        r is None && checkers_stepped(a0, a1, 0, -1)
    } else if key == Key::Right {
        r is None && checkers_stepped(a0, a1, 0, 1)
    } else if key == Key::Backspace || key == Key::Char('c') || key == Key::Char('C') {
        &&& r is None
        &&& crate::client_app::checkers_input_rest(a1.checkers_input)
        &&& a1 == (App { checkers_input: a1.checkers_input, status_message: None, ..a0 })
    } else if key == Key::Enter {
        checkers_enter_outcome(a0, a1, r)
    } else {
        r is None && a1 == a0
    }
}

// ---------------------------------------------------------------------------
// Chess
// ---------------------------------------------------------------------------

/// The legal moves of `s` from `from` to `to`, in generation order.
pub open spec fn candidates(s: chess::ChessState, from: chess::Position, to: chess::Position) -> Seq<ChessMove> {
    chess::legal_moves_of(&s).filter(|m: ChessMove| m.from == from && m.to == to)
}

/// Whether one of `ms` promotes.
pub open spec fn any_promotes(ms: Seq<ChessMove>) -> bool {
    exists|i: int| 0 <= i < ms.len() && (#[trigger] ms[i]).promotion is Some
}

/// `a1` is `a0` with the error `text` shown.
pub open spec fn shows_error(a0: App, a1: App, text: Seq<char>) -> bool {
    &&& a1 == (App { status_error: a1.status_error, ..a0 })
    &&& a1.status_error matches Some(e) && e@ == text
}

/// Playing our Chess move `mv`: solo it is submitted (`chess_submit_outcome`),
/// with an error shown when refused; online it is sent and the selection
/// dropped.
pub open spec fn finalize_outcome(a0: App, a1: App, mv: ChessMove, r: Option<NetCommand>) -> bool {
    if a0.game_mode == GameMode::Online {
        &&& r == send_action(GameAction::Chess(mv))
        &&& a1 == (App { chess_input: ChessInputState { selected_from: None, ..a0.chess_input }, ..a0 })
    } else {
        &&& r is None
        &&& if chess_accepts(a0, mv) {
            chess_submit_outcome(a0, a1, mv, true)
        } else {
            shows_error(a0, a1, "Illegal move"@)
        }
    }
}

/// The piece kind a promotion key picks.
pub open spec fn promotion_of(k: Key) -> Option<PieceKind> {
    match k {
        Key::Char('q') => Some(PieceKind::Queen),
        Key::Char('Q') => Some(PieceKind::Queen),
        Key::Char('r') => Some(PieceKind::Rook),
        Key::Char('R') => Some(PieceKind::Rook),
        Key::Char('b') => Some(PieceKind::Bishop),
        Key::Char('B') => Some(PieceKind::Bishop),
        Key::Char('n') => Some(PieceKind::Knight),
        Key::Char('N') => Some(PieceKind::Knight),
        _ => None,
    }
}

fn promotion_key(k: Key) -> (r: Option<PieceKind>)
    ensures
        r == promotion_of(k),
{
    match k {
        Key::Char(c) => {
            if c == 'q' || c == 'Q' {
                Some(PieceKind::Queen)
            } else if c == 'r' || c == 'R' {
                Some(PieceKind::Rook)
            } else if c == 'b' || c == 'B' {
                Some(PieceKind::Bishop)
            } else if c == 'n' || c == 'N' {
                Some(PieceKind::Knight)
            } else {
                None
            }
        },
        _ => None,
    }
}

/// `Enter` in a Chess game on our turn, with the cursor on `cur`: with
/// nothing selected, one of our pieces is selected (else an error is
/// shown); on the selected square the selection is dropped; otherwise the
/// legal moves to `cur` decide: none is an error, a promotion waits for the
/// piece to be chosen, else the first is played (`finalize_outcome`).
pub open spec fn chess_enter_outcome(a0: App, a1: App, r: Option<NetCommand>) -> bool {
    let cur = chess::Position { row: a0.chess_input.cursor_row, col: a0.chess_input.cursor_col };
    match (a0.game_state, a0.my_player_id) {
        (Some(ClientGameState::Chess(s)), Some(me)) => if !our_turn(a0) || cur.row >= 8 || cur.col >= 8 {
            r is None && a1 == a0
        } else {
            match a0.chess_input.selected_from {
                None => r is None && chess_pick_outcome(
                    a0,
                    a1,
                    cur,
                    chess::grid(s.board)[cur.row as int][cur.col as int] matches Some(p) && p.side == chess::turn_side(
                        s.current_turn as int,
                    ),
                ),
                Some(from) => chess_target_outcome(a0, a1, from, cur, candidates(s, from, cur), r),
            }
        },
        _ => r is None && a1 == a0,
    }
}

/// Picking the square `cur`: selected when it holds one of our pieces
/// (`own`), else an error is shown.
pub open spec fn chess_pick_outcome(a0: App, a1: App, cur: chess::Position, own: bool) -> bool {
    if own {
        a1 == (App {
            chess_input: ChessInputState { selected_from: Some(cur), ..a0.chess_input },
            status_message: None,
            ..a0
        })
    } else {
        shows_error(a0, a1, "Select one of your own pieces"@)
    }
}

/// Choosing `cur` as the target of the piece on `from`, `ms` being the legal
/// moves between them.
pub open spec fn chess_target_outcome(
    a0: App,
    a1: App,
    from: chess::Position,
    cur: chess::Position,
    ms: Seq<ChessMove>,
    r: Option<NetCommand>,
) -> bool {
    if from == cur {
        r is None && a1 == (App { chess_input: ChessInputState { selected_from: None, ..a0.chess_input }, ..a0 })
    } else if ms.len() == 0 {
        r is None && shows_error(a0, a1, "Illegal move"@)
    } else if any_promotes(ms) {
        r is None && a1 == (App {
            chess_input: ChessInputState { pending_promotion: Some((from, cur)), ..a0.chess_input },
            ..a0
        })
    } else {
        finalize_outcome(a0, a1, ms[0], r)
    }
}

/// What a key does in a Chess game: while a promotion waits, Q/R/B/N play
/// it and `Backspace` or `Esc` cancel it; otherwise arrows move the cursor
/// (up is towards row 7), `Backspace` drops the selection and `Enter` acts
/// (`chess_enter_outcome`).
pub open spec fn chess_key_outcome(a0: App, a1: App, key: Key, r: Option<NetCommand>) -> bool {
    let ci = a0.chess_input;
    match ci.pending_promotion {
        Some((from, to)) => match promotion_of(key) {
            Some(kind) => finalize_outcome(
                App { chess_input: ChessInputState { pending_promotion: None, ..ci }, ..a0 },
                a1,
                ChessMove { from, to, promotion: Some(kind) },
                r,
            ),
            None => if key == Key::Backspace || key == Key::Esc {
                r is None && a1 == (App { chess_input: ChessInputState { pending_promotion: None, ..ci }, ..a0 })
            } else {
                r is None && a1 == a0
            },
        },
        None => if key == Key::Up {
            r is None && a1 == (App {
                chess_input: ChessInputState { cursor_row: stepped(ci.cursor_row, true, 7), ..ci },
                ..a0
            })
        } else if key == Key::Down {
            r is None && a1 == (App {
                chess_input: ChessInputState { cursor_row: stepped(ci.cursor_row, false, 7), ..ci },
                ..a0
            })
        } else if key == Key::Left {
            r is None && a1 == (App {
                chess_input: ChessInputState { cursor_col: stepped(ci.cursor_col, false, 7), ..ci },
                ..a0
            })
        } else if key == Key::Right {
            r is None && a1 == (App {
                chess_input: ChessInputState { cursor_col: stepped(ci.cursor_col, true, 7), ..ci },
                ..a0
            })
        } else if key == Key::Backspace {
            r is None && a1 == (App {
                chess_input: ChessInputState { selected_from: None, ..ci },
                status_message: None,
                ..a0
            })
        } else if key == Key::Enter {
            chess_enter_outcome(a0, a1, r)
        } else {
            r is None && a1 == a0
        },
    }
}

/// The legal moves of `s` from `from` to `to`.
fn moves_between(s: &chess::ChessState, from: chess::Position, to: chess::Position) -> (r: Vec<ChessMove>)
    ensures
        r@ == candidates(*s, from, to),
{
    let all = chess::legal_moves(s);
    let ghost f = |m: ChessMove| m.from == from && m.to == to;
    let mut out: Vec<ChessMove> = Vec::new();
    let mut i: usize = 0;
    while i < all.len()
        invariant
            i <= all@.len(),
            all@ == chess::legal_moves_of(s),
            f == (|m: ChessMove| m.from == from && m.to == to),
            out@ == all@.subrange(0, i as int).filter(f),
        decreases all@.len() - i,
    {
        let m = all[i];
        proof {
            assert(all@.subrange(0, i + 1) =~= all@.subrange(0, i as int).push(m));
            all@.subrange(0, i as int).lemma_filter_push(m, f);
        }
        if m.from == from && m.to == to {
            out.push(m);
        }
        i += 1;
    }
    proof {
        assert(all@.subrange(0, all@.len() as int) =~= all@);
    }
    out
}

fn promotes_any(ms: &Vec<ChessMove>) -> (r: bool)
    ensures
        r == any_promotes(ms@),
{
    let mut i: usize = 0;
    while i < ms.len()
        invariant
            i <= ms@.len(),
            forall|j: int| 0 <= j < i ==> (#[trigger] ms@[j]).promotion is None,
        decreases ms@.len() - i,
    {
        if ms[i].promotion.is_some() {
            return true;
        }
        i += 1;
    }
    false
}

impl App {
    fn set_status_error(&mut self, text: &str)
        ensures
            shows_error(*old(self), *final(self), text@),
    {
        self.status_error = Some(text.to_owned());
    }

    /// Plays our Chess move `mv` (`finalize_outcome`).
    pub fn finalize_chess_move(&mut self, mv: ChessMove) -> (r: Option<NetCommand>)
        requires
            old(self).wf(),
        ensures
            final(self).wf(),
            finalize_outcome(*old(self), *final(self), mv, r),
    {
        match self.game_mode {
            GameMode::Online => {
                self.chess_input.selected_from = None;
                Some(NetCommand::GameAction { action: GameAction::Chess(mv) })
            },
            _ => {
                if !self.submit_chess_move(mv) {
                    self.set_status_error("Illegal move");
                }
                None
            },
        }
    }

    /// Plays the pending promotion to `kind`.
    pub fn submit_chess_promotion(&mut self, from: chess::Position, to: chess::Position, kind: PieceKind) -> (r: Option<
        NetCommand,
    >)
        requires
            old(self).wf(),
        ensures
            final(self).wf(),
            finalize_outcome(
                App { chess_input: ChessInputState { pending_promotion: None, ..old(self).chess_input }, ..*old(self) },
                *final(self),
                ChessMove { from, to, promotion: Some(kind) },
                r,
            ),
    {
        self.chess_input.pending_promotion = None;
        self.finalize_chess_move(ChessMove { from, to, promotion: Some(kind) })
    }

    fn chess_enter(&mut self) -> (r: Option<NetCommand>)
        requires
            old(self).wf(),
        ensures
            final(self).wf(),
            chess_enter_outcome(*old(self), *final(self), r),
    {
        let cur = chess::Position { row: self.chess_input.cursor_row, col: self.chess_input.cursor_col };
        if !self.is_our_turn() || cur.row >= 8 || cur.col >= 8 {
            return None;
        }
        let (own, legals) = match (&self.game_state, self.my_player_id) {
            (Some(ClientGameState::Chess(s)), Some(_)) => {
                assert(chess::grid(s.board)[cur.row as int][cur.col as int] == s.board[cur.row as int][cur.col as int]);
                let own = match s.board[cur.row as usize][cur.col as usize] {
                    Some(p) => p.side == chess::side_for_turn(s.current_turn),
                    None => false,
                };
                let legals = match self.chess_input.selected_from {
                    Some(from) => moves_between(s, from, cur),
                    None => Vec::new(),
                };
                (own, legals)
            },
            _ => {
                return None;
            },
        };
        match self.chess_input.selected_from {
            None => {
                self.chess_pick(cur, own);
                None
            },
            Some(from) => self.chess_target(from, cur, &legals),
        }
    }

    fn chess_pick(&mut self, cur: chess::Position, own: bool)
        requires
            old(self).wf(),
        ensures
            final(self).wf(),
            chess_pick_outcome(*old(self), *final(self), cur, own),
    {
        if own {
            self.chess_input.selected_from = Some(cur);
            self.status_message = None;
        } else {
            self.set_status_error("Select one of your own pieces");
        }
    }

    fn chess_target(&mut self, from: chess::Position, cur: chess::Position, legals: &Vec<ChessMove>) -> (r: Option<
        NetCommand,
    >)
        requires
            old(self).wf(),
        ensures
            final(self).wf(),
            chess_target_outcome(*old(self), *final(self), from, cur, legals@, r),
    {
        if from == cur {
            self.chess_input.selected_from = None;
            return None;
        }
        if legals.len() == 0 {
            self.set_status_error("Illegal move");
            return None;
        }
        if promotes_any(legals) {
            self.chess_input.pending_promotion = Some((from, cur));
            None
        } else {
            self.finalize_chess_move(legals[0])
        }
    }

    /// A key in a Chess game (`chess_key_outcome`).
    pub fn handle_chess_key(&mut self, key: Key) -> (r: Option<NetCommand>)
        requires
            old(self).wf(),
        ensures
            final(self).wf(),
            chess_key_outcome(*old(self), *final(self), key, r),
    {
        match self.chess_input.pending_promotion {
            Some((from, to)) => {
                match promotion_key(key) {
                    Some(kind) => {
                        return self.submit_chess_promotion(from, to, kind);
                    },
                    None => {
                        if key == Key::Backspace || key == Key::Esc {
                            self.chess_input.pending_promotion = None;
                        }
                        return None;
                    },
                }
            },
            None => {},
        }
        match key {
            Key::Up => {
                self.chess_input.cursor_row = step_value(self.chess_input.cursor_row, true, 7);
                None
            },
            Key::Down => {
                self.chess_input.cursor_row = step_value(self.chess_input.cursor_row, false, 7);
                None
            },
            Key::Left => {
                self.chess_input.cursor_col = step_value(self.chess_input.cursor_col, false, 7);
                None
            },
            Key::Right => {
                self.chess_input.cursor_col = step_value(self.chess_input.cursor_col, true, 7);
                None
            },
            Key::Backspace => {
                self.chess_input.selected_from = None;
                self.status_message = None;
                None
            },
            Key::Enter => self.chess_enter(),
            _ => None,
        }
    }
}

/// What a key does in a Snake game (see `App::handle_snake_key`).
pub open spec fn snake_key_outcome(a0: App, a1: App, key: Key, r: Option<NetCommand>) -> bool {
    match key_direction(key) {
                None => r is None && a1 == a0,
                Some(d) => if reverses_us(a0, d) || !(a0.game_state matches Some(
                    ClientGameState::Snake(_),
                )) {
                    r is None && a1 == a0
                } else if a0.game_mode == GameMode::Online && a0.snake_pending_direction != Some(
                    d,
                ) {
                    &&& r == send_action(GameAction::Snake(SnakeInput { direction: d }))
                    &&& a1 == (App {
                        snake_pending_direction: Some(d),
                        snake_last_sent_direction: Some(d),
                        ..a0
                    })
                } else {
                    r is None && a1 == (App { snake_pending_direction: Some(d), ..a0 })
                },
            }
}

/// What a key does in a Tic-Tac-Toe game (see `App::handle_tictactoe_key`).
pub open spec fn ttt_key_outcome(a0: App, a1: App, key: Key, r: Option<NetCommand>) -> bool {
    match key {
                Key::Up => r is None && a1 == (App {
                    cursor_row: stepped(a0.cursor_row, false, 2),
                    ..a0
                }),
                Key::Down => r is None && a1 == (App {
                    cursor_row: stepped(a0.cursor_row, true, 2),
                    ..a0
                }),
                Key::Left => r is None && a1 == (App {
                    cursor_col: stepped(a0.cursor_col, false, 2),
                    ..a0
                }),
                Key::Right => r is None && a1 == (App {
                    cursor_col: stepped(a0.cursor_col, true, 2),
                    ..a0
                }),
                Key::Enter => if !our_turn(a0) {
                    r is None && a1 == a0
                } else if a0.game_mode == GameMode::Online {
                    &&& r == send_action(
                        GameAction::TicTacToe(
                            TicTacToeMove { row: a0.cursor_row, col: a0.cursor_col },
                        ),
                    )
                    &&& a1 == a0
                } else {
                    r is None && solo_move_outcome(a0, a1, a0.cursor_row, a0.cursor_col)
                },
                _ => r is None && a1 == a0,
            }
}

/// What a key does in a Connect 4 game (see `App::handle_connect4_key`).
pub open spec fn c4_key_outcome(a0: App, a1: App, key: Key, r: Option<NetCommand>) -> bool {
    match key {
                Key::Left => r is None && a1 == (App {
                    cursor_col: stepped(a0.cursor_col, false, 6),
                    ..a0
                }),
                Key::Right => r is None && a1 == (App {
                    cursor_col: stepped(a0.cursor_col, true, 6),
                    ..a0
                }),
                Key::Enter => if !our_turn(a0) {
                    r is None && a1 == a0
                } else if a0.game_mode == GameMode::Online {
                    &&& r == send_action(GameAction::Connect4(Connect4Move { col: a0.cursor_col }))
                    &&& a1 == a0
                } else {
                    r is None && solo_move_outcome(a0, a1, 0, a0.cursor_col)
                },
                _ => r is None && a1 == a0,
            }
}

// ---------------------------------------------------------------------------
// Text input
// ---------------------------------------------------------------------------

/// `String::push`: the character is appended.
pub assume_specification[ String::push ](s: &mut String, ch: char)
    ensures
        final(s)@ == old(s)@.push(ch),
;

/// `String::pop`: the last character is removed and returned, `None` for an
/// empty text.
pub assume_specification[ String::pop ](s: &mut String) -> (r: Option<char>)
    ensures
        old(s)@.len() == 0 ==> r is None && final(s)@ == old(s)@,
        old(s)@.len() > 0 ==> r == Some(old(s)@.last()) && final(s)@ == old(s)@.drop_last(),
;

// ---------------------------------------------------------------------------
// Game over, dispatch
// ---------------------------------------------------------------------------

/// What a key does during a game: after the end, only the rematch keys
/// (answering a request with Y/N, or asking with R: solo a new game,
/// online a request, once); before it, the key goes to the game shown.
pub open spec fn game_key_outcome(a0: App, a1: App, key: Key, r: Option<NetCommand>) -> bool {
    if a0.game_over is Some {
        if a0.rematch_incoming {
            if key == Key::Char('y') || key == Key::Char('Y') {
                r == Some(NetCommand::RematchResponse { accept: true }) && a1 == (App { rematch_incoming: false, ..a0 })
            } else if key == Key::Char('n') || key == Key::Char('N') {
                r == Some(NetCommand::RematchResponse { accept: false }) && a1 == (App {
                    rematch_incoming: false,
                    ..a0
                })
            } else {
                r is None && a1 == a0
            }
        } else if key == Key::Char('r') || key == Key::Char('R') {
            match a0.game_mode {
                GameMode::Solo { difficulty } => r is None && solo_start_outcome(a0, a1, difficulty),
                GameMode::Online => if !a0.rematch_pending {
                    r == Some(NetCommand::RequestRematch) && a1 == (App { rematch_pending: true, ..a0 })
                } else {
                    r is None && a1 == a0
                },
            }
        } else {
            r is None && a1 == a0
        }
    } else {
        match a0.game_state {
            Some(ClientGameState::Connect4(_)) => c4_key_outcome(a0, a1, key, r),
            Some(ClientGameState::Checkers(_)) => checkers_key_outcome(a0, a1, key, r),
            Some(ClientGameState::Chess(_)) => chess_key_outcome(a0, a1, key, r),
            Some(ClientGameState::Snake(_)) => snake_key_outcome(a0, a1, key, r),
            _ => ttt_key_outcome(a0, a1, key, r),
        }
    }
}

// ---------------------------------------------------------------------------
// Lobby and login
// ---------------------------------------------------------------------------

/// The game a key picks in the game menus (`l` picks Block Breaker, offered
/// for solo play only).
pub open spec fn picked_game(k: Key, with_block_breaker: bool) -> Option<GameType> {
    if k == Key::Char('t') || k == Key::Char('T') {
        Some(GameType::TicTacToe)
    } else if k == Key::Char('c') || k == Key::Char('C') {
        Some(GameType::Connect4)
    } else if k == Key::Char('k') || k == Key::Char('K') {
        Some(GameType::Checkers)
    } else if k == Key::Char('h') || k == Key::Char('H') {
        Some(GameType::Chess)
    } else if with_block_breaker && (k == Key::Char('s') || k == Key::Char('S')) {
        Some(GameType::Snake)
    } else if with_block_breaker && (k == Key::Char('l') || k == Key::Char('L')) {
        Some(GameType::BlockBreaker)
    } else {
        None
    }
}

fn pick_game(k: Key, with_block_breaker: bool) -> (r: Option<GameType>)
    ensures
        r == picked_game(k, with_block_breaker),
{
    match k {
        Key::Char(c) => {
            if c == 't' || c == 'T' {
                Some(GameType::TicTacToe)
            } else if c == 'c' || c == 'C' {
                Some(GameType::Connect4)
            } else if c == 'k' || c == 'K' {
                Some(GameType::Checkers)
            } else if c == 'h' || c == 'H' {
                Some(GameType::Chess)
            } else if with_block_breaker && (c == 's' || c == 'S') {
                Some(GameType::Snake)
            } else if with_block_breaker && (c == 'l' || c == 'L') {
                Some(GameType::BlockBreaker)
            } else {
                None
            }
        },
        _ => None,
    }
}

/// A key that backs out of a menu: `Esc` or `b`.
pub open spec fn backs_out(k: Key) -> bool {
    k == Key::Esc || k == Key::Char('b') || k == Key::Char('B')
}

/// The game after `g` in the lobby's game cycle: Tic-Tac-Toe, Connect 4,
/// Checkers, Chess, Snake, then Tic-Tac-Toe again.
pub open spec fn next_in_cycle(g: GameType) -> GameType {
    match g {
        GameType::TicTacToe => GameType::Connect4,
        GameType::Connect4 => GameType::Checkers,
        GameType::Checkers => GameType::Chess,
        GameType::Chess => GameType::Snake,
        _ => GameType::TicTacToe,
    }
}

/// The game after `g` in the lobby's game cycle (`next_in_cycle`).
pub fn next_game_type(g: GameType) -> (r: GameType)
    ensures
        r == next_in_cycle(g),
{
    match g {
        GameType::TicTacToe => GameType::Connect4,
        GameType::Connect4 => GameType::Checkers,
        GameType::Checkers => GameType::Chess,
        GameType::Chess => GameType::Snake,
        _ => GameType::TicTacToe,
    }
}

/// The solo-game menu: a game key selects the game and asks for the
/// difficulty; backing out closes the menu.
pub open spec fn solo_menu_outcome(a0: App, a1: App, key: Key) -> bool {
    match picked_game(key, true) {
        Some(g) => a1 == (App {
            selected_game_type: g,
            selecting_solo_game: false,
            selecting_difficulty: true,
            ..a0
        }),
        None => if backs_out(key) {
            a1 == (App { selecting_solo_game: false, ..a0 })
        } else {
            a1 == a0
        },
    }
}

/// The difficulty menu: `e` starts the solo game easy, `h` (and `x` for
/// Block Breaker) hard; backing out closes the menu.
pub open spec fn difficulty_menu_outcome(a0: App, a1: App, key: Key) -> bool {
    let closed = App { selecting_difficulty: false, ..a0 };
    if key == Key::Char('e') || key == Key::Char('E') {
        solo_start_outcome(closed, a1, Difficulty::Easy)
    } else if key == Key::Char('h') || key == Key::Char('H') || (a0.selected_game_type == GameType::BlockBreaker && (
    key == Key::Char('x') || key == Key::Char('X'))) {
        solo_start_outcome(closed, a1, Difficulty::Hard)
    } else if backs_out(key) {
        a1 == closed
    } else {
        a1 == a0
    }
}

/// The default settings of a new room.
pub open spec fn default_settings() -> GameSettings {
    GameSettings { difficulty: None, max_players: 2, turn_timeout_secs: Some(60), seed: None }
}

/// What a key does in the lobby (the error shown is cleared first): the
/// solo, room-creation and difficulty menus; otherwise `q` quits, `r`
/// refreshes the rooms, `g` cycles the game, `c` opens room creation, `b`
/// the solo menu, up and down move the room selection and `Enter` joins the
/// selected room.
pub open spec fn lobby_key_outcome(a0: App, a1: App, key: Key, r: Option<NetCommand>) -> bool {
    let a = App { status_error: None, ..a0 };
    if a.selecting_solo_game {
        r is None && solo_menu_outcome(a, a1, key)
    } else if a.selecting_multiplayer_game {
        match picked_game(key, false) {
            Some(g) => {
                &&& r == Some(NetCommand::CreateRoom { game_type: g, settings: default_settings() })
                &&& a1 == (App {
                    selected_game_type: g,
                    selecting_multiplayer_game: false,
                    current_game_type: g,
                    current_max_players: 2,
                    ..a
                })
            },
            None => r is None && if backs_out(key) {
                a1 == (App { selecting_multiplayer_game: false, ..a })
            } else {
                a1 == a
            },
        }
    } else if a.selecting_difficulty {
        r is None && difficulty_menu_outcome(a, a1, key)
    } else {
        lobby_main_outcome(a, a1, key, r)
    }
}

/// The lobby's own keys (no menu open).
pub open spec fn lobby_main_outcome(a: App, a1: App, key: Key, r: Option<NetCommand>) -> bool {
    if key == Key::Char('q') {
        r is None && a1 == (App { running: false, ..a })
    } else if key == Key::Char('r') || key == Key::Char('R') {
        r == Some(NetCommand::ListRooms) && a1 == a
    } else if key == Key::Char('g') || key == Key::Char('G') {
        r is None && a1 == (App { selected_game_type: next_in_cycle(a.selected_game_type), ..a })
    } else if key == Key::Char('c') || key == Key::Char('C') {
        r is None && a1 == (App { selecting_multiplayer_game: true, ..a })
    } else if key == Key::Char('b') || key == Key::Char('B') {
        r is None && a1 == (App { selecting_solo_game: true, ..a })
    } else {
        lobby_nav_outcome(a, a1, key, r)
    }
}

/// Moving through the room list and joining the selected room.
pub open spec fn lobby_nav_outcome(a: App, a1: App, key: Key, r: Option<NetCommand>) -> bool {
    if key == Key::Up {
        r is None && a1 == (App {
            selected_room: if a.selected_room > 0 {
                (a.selected_room - 1) as usize
            } else {
                a.selected_room
            },
            ..a
        })
    } else if key == Key::Down {
        r is None && a1 == (App {
            selected_room: if a.selected_room + 1 < a.rooms@.len() {
                (a.selected_room + 1) as usize
            } else {
                a.selected_room
            },
            ..a
        })
    } else if key == Key::Enter {
        if a.selected_room < a.rooms@.len() {
            let room = a.rooms@[a.selected_room as int];
            &&& r == Some(NetCommand::JoinRoom { room_id: room.id })
            &&& a1 == (App {
                selected_game_type: room.game_type,
                current_game_type: room.game_type,
                current_max_players: room.max_players,
                ..a
            })
        } else {
            r is None && a1 == a
        }
    } else {
        r is None && a1 == a
    }
}

/// What a key does on the login screen (nothing while a request is out):
/// the solo and difficulty menus; otherwise `Tab` switches the field, F2
/// the mode, F3 opens the solo menu, `Enter` submits a valid form (else shows
/// the problem), `Backspace` and characters edit the focused field.
pub open spec fn login_key_outcome(a0: App, a1: App, key: Key, r: Option<NetCommand>) -> bool {
    if a0.login_loading {
        r is None && a1 == a0
    } else if a0.selecting_solo_game {
        r is None && solo_menu_outcome(a0, a1, key)
    } else if a0.selecting_difficulty {
        r is None && difficulty_menu_outcome(a0, a1, key)
    } else {
        match key {
            Key::Tab => r is None && a1 == (App {
                active_field: if a0.active_field == LoginField::Username {
                    LoginField::Password
                } else {
                    LoginField::Username
                },
                ..a0
            }),
            Key::F(n) => if n == 2 {
                r is None && a1 == (App {
                    login_mode: if a0.login_mode == LoginMode::Login {
                        LoginMode::Register
                    } else {
                        LoginMode::Login
                    },
                    login_error: None,
                    ..a0
                })
            } else if n == 3 {
                r is None && a1 == (App { selecting_solo_game: true, ..a0 })
            } else {
                r is None && a1 == a0
            },
            Key::Enter => match login_form_problem(
                a0.login_mode,
                a0.username_input@,
                vstd::utf8::encode_utf8(a0.password_input@).len(),
            ) {
                Some(p) => {
                    &&& r is None
                    &&& a1 == (App { login_error: a1.login_error, ..a0 })
                    &&& a1.login_error matches Some(e) && e@ == translated(a0.translator, p)
                },
                None => {
                    &&& a1 == (App { login_loading: true, login_error: None, ..a0 })
                    &&& r == Some(
                        if a0.login_mode == LoginMode::Login {
                            NetCommand::Login {
                                server_url: a0.server_url,
                                username: a0.username_input,
                                password: a0.password_input,
                            }
                        } else {
                            NetCommand::Register {
                                server_url: a0.server_url,
                                username: a0.username_input,
                                password: a0.password_input,
                            }
                        },
                    )
                },
            },
            Key::Backspace => r is None && if a0.active_field == LoginField::Username {
                a1 == (App { username_input: a1.username_input, ..a0 }) && a1.username_input@ == (if a0.username_input@.len()
                    > 0 {
                    a0.username_input@.drop_last()
                } else {
                    a0.username_input@
                })
            } else {
                a1 == (App { password_input: a1.password_input, ..a0 }) && a1.password_input@ == (if a0.password_input@.len()
                    > 0 {
                    a0.password_input@.drop_last()
                } else {
                    a0.password_input@
                })
            },
            Key::Char(c) => r is None && if a0.active_field == LoginField::Username {
                a1 == (App { username_input: a1.username_input, ..a0 }) && a1.username_input@ == a0.username_input@.push(c)
            } else {
                a1 == (App { password_input: a1.password_input, ..a0 }) && a1.password_input@ == a0.password_input@.push(c)
            },
            _ => r is None && a1 == a0,
        }
    }
}

impl App {
    /// A key after or during a game (`game_key_outcome`).
    pub fn handle_game_key(&mut self, key: Key) -> (r: Option<NetCommand>)
        requires
            old(self).wf(),
        ensures
            final(self).wf(),
            game_key_outcome(*old(self), *final(self), key, r),
    {
        if self.game_over.is_some() {
            if self.rematch_incoming {
                if key == Key::Char('y') || key == Key::Char('Y') {
                    self.rematch_incoming = false;
                    return Some(NetCommand::RematchResponse { accept: true });
                }
                if key == Key::Char('n') || key == Key::Char('N') {
                    self.rematch_incoming = false;
                    return Some(NetCommand::RematchResponse { accept: false });
                }
                return None;
            }
            if key == Key::Char('r') || key == Key::Char('R') {
                match self.game_mode {
                    GameMode::Solo { .. } => {
                        self.rematch_solo();
                        return None;
                    },
                    GameMode::Online => {
                        if !self.rematch_pending {
                            self.rematch_pending = true;
                            return Some(NetCommand::RequestRematch);
                        }
                        return None;
                    },
                }
            }
            return None;
        }
        match &self.game_state {
            Some(ClientGameState::Connect4(_)) => self.handle_connect4_key(key),
            Some(ClientGameState::Checkers(_)) => self.handle_checkers_key(key),
            Some(ClientGameState::Chess(_)) => self.handle_chess_key(key),
            Some(ClientGameState::Snake(_)) => self.handle_snake_key(key),
            _ => self.handle_tictactoe_key(key),
        }
    }

    fn solo_menu_key(&mut self, key: Key)
        ensures
            solo_menu_outcome(*old(self), *final(self), key),
    {
        match pick_game(key, true) {
            Some(g) => {
                self.selected_game_type = g;
                self.selecting_solo_game = false;
                self.selecting_difficulty = true;
            },
            None => {
                if key == Key::Esc || key == Key::Char('b') || key == Key::Char('B') {
                    self.selecting_solo_game = false;
                }
            },
        }
    }

    fn difficulty_menu_key(&mut self, key: Key)
        requires
            old(self).wf(),
        ensures
            final(self).wf(),
            difficulty_menu_outcome(*old(self), *final(self), key),
    {
        let is_bb = self.selected_game_type == GameType::BlockBreaker;
        if key == Key::Char('e') || key == Key::Char('E') {
            self.selecting_difficulty = false;
            self.start_solo_game(Difficulty::Easy);
        } else if key == Key::Char('h') || key == Key::Char('H') || (is_bb && (key == Key::Char('x') || key
            == Key::Char('X'))) {
            self.selecting_difficulty = false;
            self.start_solo_game(Difficulty::Hard);
        } else if key == Key::Esc || key == Key::Char('b') || key == Key::Char('B') {
            self.selecting_difficulty = false;
        }
    }

    /// A key in the lobby (`lobby_key_outcome`).
    pub fn handle_lobby_key(&mut self, key: Key) -> (r: Option<NetCommand>)
        requires
            old(self).wf(),
        ensures
            final(self).wf(),
            lobby_key_outcome(*old(self), *final(self), key, r),
    {
        self.status_error = None;
        if self.selecting_solo_game {
            self.solo_menu_key(key);
            return None;
        }
        if self.selecting_multiplayer_game {
            match pick_game(key, false) {
                Some(g) => {
                    let settings = GameSettings::default();
                    self.selected_game_type = g;
                    self.selecting_multiplayer_game = false;
                    self.current_game_type = g;
                    self.current_max_players = settings.max_players;
                    return Some(NetCommand::CreateRoom { game_type: g, settings });
                },
                None => {
                    if key == Key::Esc || key == Key::Char('b') || key == Key::Char('B') {
                        self.selecting_multiplayer_game = false;
                    }
                    return None;
                },
            }
        }
        if self.selecting_difficulty {
            self.difficulty_menu_key(key);
            return None;
        }
        self.lobby_main_key(key)
    }

    #[verifier::spinoff_prover]
    fn lobby_main_key(&mut self, key: Key) -> (r: Option<NetCommand>)
        ensures
            lobby_main_outcome(*old(self), *final(self), key, r),
            final(self).game_state == old(self).game_state,
    {
        if key == Key::Char('q') {
            self.quit();
            None
        } else if key == Key::Char('r') || key == Key::Char('R') {
            Some(NetCommand::ListRooms)
        } else if key == Key::Char('g') || key == Key::Char('G') {
            self.selected_game_type = next_game_type(self.selected_game_type);
            None
        } else if key == Key::Char('c') || key == Key::Char('C') {
            self.selecting_multiplayer_game = true;
            None
        } else if key == Key::Char('b') || key == Key::Char('B') {
            self.selecting_solo_game = true;
            None
        } else {
            self.lobby_nav_key(key)
        }
    }

    fn lobby_nav_key(&mut self, key: Key) -> (r: Option<NetCommand>)
        ensures
            lobby_nav_outcome(*old(self), *final(self), key, r),
            final(self).game_state == old(self).game_state,
    {
        if key == Key::Up {
            if self.selected_room > 0 {
                self.selected_room = self.selected_room - 1;
            }
            None
        } else if key == Key::Down {
            let n = self.rooms.len();
            if n > 0 && self.selected_room < n - 1 {
                self.selected_room = self.selected_room + 1;
            }
            None
        } else if key == Key::Enter {
            if self.selected_room < self.rooms.len() {
                let id = self.rooms[self.selected_room].id;
                let g = self.rooms[self.selected_room].game_type;
                let m = self.rooms[self.selected_room].max_players;
                self.selected_game_type = g;
                self.current_game_type = g;
                self.current_max_players = m;
                Some(NetCommand::JoinRoom { room_id: id })
            } else {
                None
            }
        } else {
            None
        }
    }

    /// A key on the login screen (`login_key_outcome`).
    pub fn handle_login_key(&mut self, key: Key) -> (r: Option<NetCommand>)
        requires
            old(self).wf(),
        ensures
            final(self).wf(),
            login_key_outcome(*old(self), *final(self), key, r),
    {
        if self.login_loading {
            return None;
        }
        if self.selecting_solo_game {
            self.solo_menu_key(key);
            return None;
        }
        if self.selecting_difficulty {
            self.difficulty_menu_key(key);
            return None;
        }
        match key {
            Key::Tab => {
                self.toggle_field();
                None
            },
            Key::F(n) => {
                if n == 2 {
                    self.toggle_login_mode();
                } else if n == 3 {
                    self.selecting_solo_game = true;
                }
                None
            },
            Key::Enter => {
                match self.validate_login_form() {
                    Some(err) => {
                        self.login_error = Some(err);
                        None
                    },
                    None => {
                        self.login_loading = true;
                        self.login_error = None;
                        let server_url = self.server_url.clone();
                        let username = self.username_input.clone();
                        let password = self.password_input.clone();
                        match self.login_mode {
                            LoginMode::Login => Some(NetCommand::Login { server_url, username, password }),
                            LoginMode::Register => Some(NetCommand::Register { server_url, username, password }),
                        }
                    },
                }
            },
            Key::Backspace => {
                match self.active_field {
                    LoginField::Username => {
                        let _ = self.username_input.pop();
                    },
                    LoginField::Password => {
                        let _ = self.password_input.pop();
                    },
                }
                None
            },
            Key::Char(c) => {
                match self.active_field {
                    LoginField::Username => self.username_input.push(c),
                    LoginField::Password => self.password_input.push(c),
                }
                None
            },
            _ => None,
        }
    }
}

// ---------------------------------------------------------------------------
// Keys and network events
// ---------------------------------------------------------------------------

/// An event from the network side (game data already decoded).
#[derive(Debug)]
pub enum NetEvent {
    Connected,
    AuthResult(ServerMsg),
    RoomList(Vec<RoomSummary>),
    RoomJoined { room_id: RoomId, players: Vec<PlayerInfo>, state: RoomState },
    PlayerJoined(PlayerInfo),
    PlayerLeft(PlayerId),
    /// A full game state; `None` when it did not decode.
    GameStateUpdate { state: Option<ClientGameState> },
    /// A Snake tick.
    GameDelta { delta: SnakeDelta },
    GameOver { outcome: GameOutcome },
    Error(String),
    Disconnected,
    RematchRequested,
    RematchAccepted,
    RematchDeclined,
    ServerMessage(ServerMsg),
}

/// The commands of an optional one.
pub open spec fn opt_seq(o: Option<NetCommand>) -> Seq<NetCommand> {
    match o {
        Some(c) => seq![c],
        None => Seq::empty(),
    }
}

/// What a key does anywhere: `Esc` closes the help, else drops a checkers
/// selection, leaves a solo game, leaves the room (telling the server and
/// asking for the rooms) or quits; Ctrl-C quits; `i` in a game toggles the
/// help; other keys go to the screen shown (nothing in a room, nothing in a
/// game while the help is shown).
pub open spec fn key_outcome(a0: App, a1: App, key: Key, ctrl: bool, r: Seq<NetCommand>) -> bool {
    if key == Key::Esc {
        if a0.show_help {
            r.len() == 0 && a1 == (App { show_help: false, ..a0 })
        } else if a0.screen == Screen::InGame && (a0.game_state matches Some(ClientGameState::Checkers(_)))
            && a0.checkers_input.stage != CheckersInputStage::Idle {
            &&& r.len() == 0
            &&& checkers_input_rest(a1.checkers_input)
            &&& a1 == (App { checkers_input: a1.checkers_input, status_message: None, ..a0 })
        } else if a0.screen == Screen::InGame && a0.game_mode != GameMode::Online {
            r.len() == 0 && leave_solo_game_outcome(a0, a1)
        } else if a0.screen == Screen::Room || a0.screen == Screen::InGame {
            r == seq![NetCommand::LeaveRoom, NetCommand::ListRooms] && on_room_left_outcome(a0, a1)
        } else {
            r.len() == 0 && a1 == (App { running: false, ..a0 })
        }
    } else if key == Key::Char('c') && ctrl {
        r.len() == 0 && a1 == (App { running: false, ..a0 })
    } else if a0.screen == Screen::InGame && (key == Key::Char('i') || key == Key::Char('I')) {
        r.len() == 0 && a1 == (App { show_help: !a0.show_help, ..a0 })
    } else {
        match a0.screen {
            Screen::Login => exists|o: Option<NetCommand>| #[trigger] login_key_outcome(a0, a1, key, o) && r == opt_seq(o),
            Screen::Lobby => exists|o: Option<NetCommand>| #[trigger] lobby_key_outcome(a0, a1, key, o) && r == opt_seq(o),
            Screen::Room => r.len() == 0 && a1 == a0,
            Screen::InGame => if a0.show_help {
                r.len() == 0 && a1 == a0
            } else {
                exists|o: Option<NetCommand>| #[trigger] game_key_outcome(a0, a1, key, o) && r == opt_seq(o)
            },
        }
    }
}

/// What a network event does: the rooms are asked for on connection, after
/// signing in and after a declined rematch; the event updates the screen as
/// the matching `App` method says; an error goes to the login form or the
/// status line; a lost connection returns to the login screen.
pub open spec fn net_event_outcome(a0: App, a1: App, event: NetEvent, r: Seq<NetCommand>) -> bool {
    match event {
        NetEvent::Connected => r == seq![NetCommand::ListRooms] && a1 == a0,
        NetEvent::AuthResult(ServerMsg::AuthOk { token, expires_at, player_id }) => {
            &&& r == seq![NetCommand::ListRooms]
            &&& on_auth_success_outcome(App { my_player_id: Some(player_id), ..a0 }, a1, token)
        },
        NetEvent::RoomList(rooms) => r.len() == 0 && update_rooms_outcome(a0, a1, rooms),
        NetEvent::RoomJoined { room_id, players, state } => r.len() == 0 && on_room_joined_outcome(
            a0,
            a1,
            room_id,
            players,
        ),
        NetEvent::GameStateUpdate { state } => r.len() == 0 && on_game_state_outcome(a0, a1, state),
        NetEvent::GameDelta { delta } => r.len() == 0 && delta_outcome(a0, a1, delta),
        NetEvent::GameOver { outcome } => r.len() == 0 && on_game_over_outcome(a0, a1, outcome),
        NetEvent::PlayerJoined(p) => r.len() == 0 && on_player_joined_outcome(a0, a1, p),
        NetEvent::PlayerLeft(id) => r.len() == 0 && on_player_left_outcome(a0, a1, id),
        NetEvent::RematchRequested => r.len() == 0 && a1 == (App { rematch_incoming: true, ..a0 }),
        NetEvent::RematchAccepted => r.len() == 0 && on_rematch_accepted_outcome(a0, a1),
        NetEvent::RematchDeclined => r == seq![NetCommand::ListRooms] && on_rematch_declined_outcome(a0, a1),
        NetEvent::Error(msg) => r.len() == 0 && if a0.screen == Screen::Login {
            on_auth_failure_outcome(a0, a1, msg)
        } else {
            a1 == (App { status_error: Some(msg), ..a0 })
        },
        NetEvent::Disconnected => {
            &&& r.len() == 0
            &&& a1 == (App {
                authenticated: false,
                auth_token: None,
                screen: Screen::Login,
                login_error: a1.login_error,
                ..a0
            })
            &&& a1.login_error matches Some(e) && e@ == "Disconnected from server"@
        },
        _ => r.len() == 0 && a1 == a0,
    }
}

fn as_vec(o: Option<NetCommand>) -> (v: Vec<NetCommand>)
    ensures
        v@ == opt_seq(o),
{
    let mut v: Vec<NetCommand> = Vec::new();
    match o {
        Some(c) => {
            v.push(c);
            assert(v@ =~= seq![c]);
        },
        None => {
            assert(v@ =~= Seq::<NetCommand>::empty());
        },
    }
    v
}

impl App {
    fn escape_key(&mut self) -> (r: Vec<NetCommand>)
        requires
            old(self).wf(),
        ensures
            final(self).wf(),
            key_outcome(*old(self), *final(self), Key::Esc, false, r@),
    {
        let mut out: Vec<NetCommand> = Vec::new();
        if self.show_help {
            self.show_help = false;
            return out;
        }
        let in_game = self.screen == Screen::InGame;
        let selecting = match (&self.game_state, self.checkers_input.stage) {
            (Some(ClientGameState::Checkers(_)), CheckersInputStage::Idle) => false,
            (Some(ClientGameState::Checkers(_)), _) => true,
            _ => false,
        };
        if in_game && selecting {
            self.checkers_cancel_selection();
        } else if in_game && self.game_mode != GameMode::Online {
            self.leave_solo_game();
        } else if self.screen == Screen::Room || in_game {
            self.on_room_left();
            out.push(NetCommand::LeaveRoom);
            out.push(NetCommand::ListRooms);
            assert(out@ =~= seq![NetCommand::LeaveRoom, NetCommand::ListRooms]);
        } else {
            self.quit();
        }
        out
    }

    /// A key press (`key_outcome`); `ctrl` tells whether Control was held.
    pub fn handle_key(&mut self, key: Key, ctrl: bool) -> (r: Vec<NetCommand>)
        requires
            old(self).wf(),
        ensures
            final(self).wf(),
            key_outcome(*old(self), *final(self), key, ctrl, r@),
    {
        if key == Key::Esc {
            return self.escape_key();
        }
        if key == Key::Char('c') && ctrl {
            self.quit();
            return Vec::new();
        }
        if self.screen == Screen::InGame && (key == Key::Char('i') || key == Key::Char('I')) {
            self.show_help = !self.show_help;
            return Vec::new();
        }
        let ghost a0 = *self;
        match self.screen {
            Screen::Login => {
                let o = self.handle_login_key(key);
                assert(login_key_outcome(a0, *self, key, o));
                as_vec(o)
            },
            Screen::Lobby => {
                let o = self.handle_lobby_key(key);
                assert(lobby_key_outcome(a0, *self, key, o));
                as_vec(o)
            },
            Screen::Room => Vec::new(),
            Screen::InGame => {
                if self.show_help {
                    return Vec::new();
                }
                let o = self.handle_game_key(key);
                assert(game_key_outcome(a0, *self, key, o));
                as_vec(o)
            },
        }
    }

    /// A network event (`net_event_outcome`). A game state given must be one
    /// the client can work with (see `ClientGameState::is_well_formed`).
    pub fn handle_net_event(&mut self, event: NetEvent) -> (r: Vec<NetCommand>)
        requires
            old(self).wf(),
            event matches NetEvent::GameStateUpdate { state: Some(st) } ==> client_state_wf(st),
        ensures
            final(self).wf(),
            net_event_outcome(*old(self), *final(self), event, r@),
    {
        let refresh = match event {
            NetEvent::Connected => true,
            NetEvent::AuthResult(msg) => self.auth_result(msg),
            NetEvent::RoomList(rooms) => {
                self.update_rooms(rooms);
                false
            },
            NetEvent::RoomJoined { room_id, players, state } => {
                self.on_room_joined(room_id, players);
                false
            },
            NetEvent::GameStateUpdate { state } => {
                self.on_game_state(state);
                false
            },
            NetEvent::GameDelta { delta } => {
                self.on_snake_delta(&delta);
                false
            },
            NetEvent::GameOver { outcome } => {
                let _ = self.on_game_over(outcome);
                false
            },
            NetEvent::PlayerJoined(p) => {
                self.on_player_joined(p);
                false
            },
            NetEvent::PlayerLeft(id) => {
                self.on_player_left(id);
                false
            },
            NetEvent::RematchRequested => {
                self.rematch_incoming = true;
                false
            },
            NetEvent::RematchAccepted => {
                self.on_rematch_accepted();
                false
            },
            NetEvent::RematchDeclined => {
                self.on_rematch_declined();
                true
            },
            NetEvent::Error(msg) => {
                self.show_net_error(msg);
                false
            },
            NetEvent::Disconnected => {
                self.disconnected();
                false
            },
            _ => false,
        };
        if refresh {
            as_vec(Some(NetCommand::ListRooms))
        } else {
            as_vec(None)
        }
    }

    fn auth_result(&mut self, msg: ServerMsg) -> (refresh: bool)
        ensures
            match msg {
                ServerMsg::AuthOk { token, expires_at, player_id } => refresh && on_auth_success_outcome(
                    App { my_player_id: Some(player_id), ..*old(self) },
                    *final(self),
                    token,
                ),
                _ => !refresh && *final(self) == *old(self),
            },
    {
        match msg {
            ServerMsg::AuthOk { token, expires_at, player_id } => {
                self.my_player_id = Some(player_id);
                let _ = self.on_auth_success(token);
                true
            },
            _ => false,
        }
    }

    fn show_net_error(&mut self, msg: String)
        ensures
            if old(self).screen == Screen::Login {
                on_auth_failure_outcome(*old(self), *final(self), msg)
            } else {
                *final(self) == (App { status_error: Some(msg), ..*old(self) })
            },
    {
        if self.screen == Screen::Login {
            self.on_auth_failure(msg);
        } else {
            self.status_error = Some(msg);
        }
    }

    fn disconnected(&mut self)
        ensures
            *final(self) == (App {
                authenticated: false,
                auth_token: None,
                screen: Screen::Login,
                login_error: final(self).login_error,
                ..*old(self)
            }),
            final(self).login_error matches Some(e) && e@ == "Disconnected from server"@,
    {
        self.authenticated = false;
        self.auth_token = None;
        self.screen = Screen::Login;
        self.login_error = Some("Disconnected from server".to_owned());
    }
}

} // verus!
