//! How much of the interface a terminal of a given size can show.
//!
//! Three tiers: `Fits` renders normally, `Edge` (below the recommended size
//! but above the floor) shows a compact panel, `TooSmall` (below the floor)
//! only asks for a larger terminal.
use vstd::prelude::*;

use crate::types::GameType;

verus! {

/// Minimum dimensions for the full interface (header, board, footer).
pub const MIN_COLS: u16 = 80;

pub const MIN_ROWS: u16 = 24;

/// Below these nothing useful can be drawn.
pub const EDGE_MIN_COLS: u16 = 30;

pub const EDGE_MIN_ROWS: u16 = 10;

/// A rectangle of terminal cells.
#[derive(Clone, Copy, Debug, PartialEq, Eq, Structural)]
pub struct Rect {
    pub x: u16,
    pub y: u16,
    pub width: u16,
    pub height: u16,
}

impl Rect {
    pub fn new(x: u16, y: u16, width: u16, height: u16) -> (r: Rect)
        ensures
            r == (Rect { x, y, width, height }),
    {
        Rect { x, y, width, height }
    }
}

#[derive(Clone, Copy, Debug, PartialEq, Eq, Structural)]
pub enum TerminalFit {
    Fits,
    Edge,
    TooSmall,
}

/// The (columns, rows) a game needs; the defaults for other games and for
/// the screens outside a game.
pub open spec fn minimums(game_type: Option<GameType>) -> (u16, u16) {
    match game_type {
        Some(GameType::TicTacToe) => (30, 12),
        Some(GameType::Connect4) => (50, 18),
        Some(GameType::Snake) | Some(GameType::Chess) | Some(GameType::Checkers) => (80, 24),
        _ => (MIN_COLS, MIN_ROWS),
    }
}

/// The tier of a `width` x `height` area for `game_type`.
pub open spec fn fit_of(width: u16, height: u16, game_type: Option<GameType>) -> TerminalFit {
    if width < EDGE_MIN_COLS || height < EDGE_MIN_ROWS {
        TerminalFit::TooSmall
    } else if width < minimums(game_type).0 || height < minimums(game_type).1 {
        TerminalFit::Edge
    } else {
        TerminalFit::Fits
    }
}

fn game_minimums(game_type: Option<GameType>) -> (r: (u16, u16))
    ensures
        r == minimums(game_type),
{
    match game_type {
        Some(GameType::TicTacToe) => (30, 12),
        Some(GameType::Connect4) => (50, 18),
        Some(GameType::Snake) | Some(GameType::Chess) | Some(GameType::Checkers) => (80, 24),
        _ => (MIN_COLS, MIN_ROWS),
    }
}

/// The tier of `area` with the default minimums.
pub fn check_fit(area: Rect) -> (r: TerminalFit)
    ensures
        r == fit_of(area.width, area.height, None),
{
    check_fit_for_game(area, None)
}

/// The tier of `area` for `game_type`: below the floor it is too small,
/// below the game's minimum it is at the edge, otherwise it fits.
pub fn check_fit_for_game(area: Rect, game_type: Option<GameType>) -> (r: TerminalFit)
    ensures
        r == fit_of(area.width, area.height, game_type),
{
    let (min_cols, min_rows) = game_minimums(game_type);
    if area.width < EDGE_MIN_COLS || area.height < EDGE_MIN_ROWS {
        TerminalFit::TooSmall
    } else if area.width < min_cols || area.height < min_rows {
        TerminalFit::Edge
    } else {
        TerminalFit::Fits
    }
}

/// A larger terminal never fits worse: growing both sides moves the tier
/// only from `TooSmall` towards `Fits`.
pub proof fn law_fit_monotone(w1: u16, h1: u16, w2: u16, h2: u16, game_type: Option<GameType>)
    requires
        w1 <= w2,
        h1 <= h2,
    ensures
        fit_of(w1, h1, game_type) == TerminalFit::Fits ==> fit_of(w2, h2, game_type) == TerminalFit::Fits,
        fit_of(w2, h2, game_type) == TerminalFit::TooSmall ==> fit_of(w1, h1, game_type)
            == TerminalFit::TooSmall,
{
}

} // verus!
