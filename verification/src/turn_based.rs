use vstd::prelude::*;

use crate::tictactoe::{empties, tgrid, ttt_outcome, ttt_rejection, TicTacToe, TicTacToeMove, TicTacToeState};
use crate::messages::ServerMsg;
use crate::types::{GameOutcome, GameSettings, GameType, PlayerId};

verus! {

/// The state of a turn-based game on the server.
#[derive(Clone, Copy, Debug)]
pub enum GameState {
    TicTacToe(TicTacToeState),
}

/// A turn-based game in progress in a room.
#[derive(Debug)]
pub struct TurnBasedGame {
    pub game_type: GameType,
    pub state: GameState,
    pub players: Vec<PlayerId>,
    pub finished: bool,
}

/// The game types the server plays turn by turn.
pub open spec fn turn_based_supported(g: GameType) -> bool {
    g == GameType::TicTacToe
}

/// A Tic-Tac-Toe state reachable in play: every move filled one cell.
pub open spec fn ttt_consistent(st: TicTacToeState) -> bool {
    st.wf() && st.move_count + empties(tgrid(st.board)) == 9
}

/// Whether `m` carries the game state `data` at move `tick`.
pub open spec fn is_state_update(m: ServerMsg, tick: u64, data: Seq<u8>) -> bool {
    m matches ServerMsg::GameStateUpdate { tick: t, state_data: d } && t == tick && d@ == data
}

/// A copy of a list of player ids.
pub(crate) fn copy_ids(v: &Vec<PlayerId>) -> (r: Vec<PlayerId>)
    ensures
        r@ == v@,
{
    let mut r: Vec<PlayerId> = Vec::new();
    let mut i: usize = 0;
    while i < v.len()
        invariant
            i <= v@.len(),
            r@ == v@.subrange(0, i as int),
        decreases v@.len() - i,
    {
        r.push(v[i]);
        assert(v@.subrange(0, i + 1) =~= v@.subrange(0, i as int).push(v@[i as int]));
        i += 1;
    }
    assert(v@.subrange(0, i as int) =~= v@);
    r
}

fn copy_bytes(v: &Vec<u8>) -> (r: Vec<u8>)
    ensures
        r@ == v@,
{
    let mut r: Vec<u8> = Vec::new();
    let mut i: usize = 0;
    while i < v.len()
        invariant
            i <= v@.len(),
            r@ == v@.subrange(0, i as int),
        decreases v@.len() - i,
    {
        r.push(v[i]);
        assert(v@.subrange(0, i + 1) =~= v@.subrange(0, i as int).push(v@[i as int]));
        i += 1;
    }
    assert(v@.subrange(0, i as int) =~= v@);
    r
}

/// Empty cells in the first `c` cells of row `r`.
pub open spec fn count_cols(g: crate::tictactoe::TGrid, r: int, c: int) -> nat
    decreases c,
{
    if c <= 0 {
        0
    } else {
        count_cols(g, r, c - 1) + crate::tictactoe::empty_at(g, r, c - 1)
    }
}

/// Empty cells in the first `r` rows.
pub open spec fn count_rows(g: crate::tictactoe::TGrid, r: int) -> nat
    decreases r,
{
    if r <= 0 {
        0
    } else {
        count_rows(g, r - 1) + count_cols(g, r - 1, 3)
    }
}

/// What playing `mv` for `player` does to `g0`, giving `r` and `g1`: a
/// refused move leaves the game as it was; an accepted one marks the cell,
/// passes the turn and reports the outcome, if the game ended.
pub open spec fn play_outcome(
    g0: TurnBasedGame,
    player: PlayerId,
    mv: TicTacToeMove,
    r: Result<Option<GameOutcome>, String>,
    g1: TurnBasedGame,
) -> bool {
    let GameState::TicTacToe(s0) = g0.state;
    let GameState::TicTacToe(s1) = g1.state;
    &&& g1.wf()
    &&& g1.players@ == g0.players@
    &&& g1.game_type == g0.game_type
    &&& match r {
        Err(e) => ttt_rejection(s0, player, mv) == Some(e@) && s1 == s0 && g1.finished == g0.finished,
        Ok(o) => {
            &&& ttt_rejection(s0, player, mv) is None
            &&& tgrid(s1.board) == crate::tictactoe::tset(
                tgrid(s0.board),
                mv.row as int,
                mv.col as int,
                crate::tictactoe::mark(s0.current_turn as int),
            )
            &&& s1.current_turn == 1 - s0.current_turn
            &&& s1.move_count == s0.move_count + 1
            &&& s1.players == s0.players
            &&& o == ttt_outcome(tgrid(s1.board), s1.move_count as int, s1.players)
            &&& g1.finished == (g0.finished || o is Some)
        },
    }
}

impl TurnBasedGame {
    /// The number of moves played so far: the tick of state updates.
    pub open spec fn tick_of(&self) -> u64 {
        match self.state {
            GameState::TicTacToe(st) => st.move_count as u64,
        }
    }

    pub open spec fn wf(&self) -> bool {
        match self.state {
            GameState::TicTacToe(st) => ttt_consistent(st),
        }
    }

    /// Whether the server plays `game_type` turn by turn.
    pub fn is_supported(game_type: GameType) -> (r: bool)
        ensures
            r == turn_based_supported(game_type),
    {
        match game_type {
            GameType::TicTacToe => true,
            _ => false,
        }
    }

    /// A new game of `game_type` for `players` (in turn order), if supported.
    pub fn new(game_type: GameType, players: &[PlayerId], settings: &GameSettings) -> (r: Option<TurnBasedGame>)
        requires
            turn_based_supported(game_type) ==> players@.len() >= 2,
        ensures
            r is Some <==> turn_based_supported(game_type),
            r matches Some(g) ==> {
                &&& g.wf()
                &&& g.game_type == game_type
                &&& g.players@ == players@
                &&& !g.finished
                &&& g.state matches GameState::TicTacToe(st) && st.players == [players@[0], players@[1]]
                    && st.current_turn == 0 && st.move_count == 0
            },
    {
        match game_type {
            GameType::TicTacToe => {
                let st = TicTacToe::initial_state(players, settings);
                assert(empties(tgrid(st.board)) == 9);
                let mut ps: Vec<PlayerId> = Vec::new();
                let mut i: usize = 0;
                while i < players.len()
                    invariant
                        i <= players@.len(),
                        ps@ == players@.subrange(0, i as int),
                    decreases players@.len() - i,
                {
                    ps.push(players[i]);
                    assert(players@.subrange(0, i + 1) =~= players@.subrange(0, i as int).push(players@[i as int]));
                    i += 1;
                }
                assert(players@.subrange(0, i as int) =~= players@);
                Some(TurnBasedGame { game_type, state: GameState::TicTacToe(st), players: ps, finished: false })
            },
            _ => None,
        }
    }

    /// Plays `mv` for `player`: refused with the engine's reason when invalid;
    /// otherwise applied, and the outcome returned (the game marked finished)
    /// when it ends the game.
    pub fn play(&mut self, player: PlayerId, mv: &TicTacToeMove) -> (r: Result<Option<GameOutcome>, String>)
        requires
            old(self).wf(),
        ensures
            play_outcome(*old(self), player, *mv, r, *final(self)),
    {
        match &mut self.state {
            GameState::TicTacToe(st) => {
                let ghost s0 = *st;
                match TicTacToe::validate_move(st, player, mv) {
                    Err(reason) => {
                        return Err(reason);
                    },
                    Ok(()) => {},
                }
                assert(tgrid(s0.board)[mv.row as int][mv.col as int] == crate::tictactoe::Cell::Empty);
                proof {
                    crate::tictactoe::lemma_tset_empties(tgrid(s0.board), mv.row as int, mv.col as int, crate::tictactoe::mark(s0.current_turn as int));
                }
                TicTacToe::apply_move(st, player, mv);
                let outcome = TicTacToe::is_terminal(st);
                if outcome.is_some() {
                    self.finished = true;
                }
                Ok(outcome)
            },
        }
    }

    /// The replies to `player`'s move once `play` gave `result` and the new
    /// state was encoded as `state_data`: a refusal is answered with an error
    /// (code 400) to the mover alone; an accepted move with the new state to
    /// the mover and to every other player, followed, when the game ended, by
    /// the outcome to every player.
    pub fn action_messages(
        &self,
        player: PlayerId,
        result: &Result<Option<GameOutcome>, String>,
        state_data: &Vec<u8>,
    ) -> (r: (ServerMsg, Vec<(PlayerId, ServerMsg)>))
        ensures
            match result {
                Err(e) => r.0 matches ServerMsg::Error { code, message } && code == 400 && message@ == e@
                    && r.1@.len() == 0,
                Ok(o) => {
                    let others = self.players@.filter(|p: PlayerId| p != player);
                    &&& is_state_update(r.0, self.tick_of(), state_data@)
                    &&& r.1@.len() == others.len() + if o is Some {
                        self.players@.len()
                    } else {
                        0
                    }
                    &&& forall|i: int|
                        0 <= i < others.len() ==> (#[trigger] r.1@[i]).0 == others[i] && is_state_update(
                            r.1@[i].1,
                            self.tick_of(),
                            state_data@,
                        )
                    &&& o matches Some(out) ==> forall|j: int|
                        0 <= j < self.players@.len() ==> #[trigger] r.1@[others.len() + j] == (
                            self.players@[j],
                            ServerMsg::GameOver { outcome: *out },
                        )
                },
            },
    {
        match result {
            Err(e) => (ServerMsg::Error { code: 400, message: e.clone() }, Vec::new()),
            Ok(o) => {
                let tick: u64 = match &self.state {
                    GameState::TicTacToe(st) => st.move_count as u64,
                };
                let others = self.others(player);
                let mut out: Vec<(PlayerId, ServerMsg)> = Vec::new();
                let mut i: usize = 0;
                while i < others.len()
                    invariant
                        i <= others@.len(),
                        out@.len() == i,
                        forall|k: int|
                            0 <= k < i ==> (#[trigger] out@[k]).0 == others@[k] && is_state_update(
                                out@[k].1,
                                tick,
                                state_data@,
                            ),
                    decreases others@.len() - i,
                {
                    out.push((others[i], ServerMsg::GameStateUpdate { tick, state_data: copy_bytes(state_data) }));
                    i += 1;
                }
                match o {
                    Some(outcome) => {
                        let mut j: usize = 0;
                        while j < self.players.len()
                            invariant
                                j <= self.players@.len(),
                                out@.len() == others@.len() + j,
                                forall|k: int|
                                    0 <= k < others@.len() ==> (#[trigger] out@[k]).0 == others@[k]
                                        && is_state_update(out@[k].1, tick, state_data@),
                                forall|k: int|
                                    0 <= k < j ==> #[trigger] out@[others@.len() + k] == (
                                        self.players@[k],
                                        ServerMsg::GameOver { outcome: *outcome },
                                    ),
                            decreases self.players@.len() - j,
                        {
                            out.push((self.players[j], ServerMsg::GameOver { outcome: *outcome }));
                            j += 1;
                        }
                    },
                    None => {},
                }
                (ServerMsg::GameStateUpdate { tick, state_data: copy_bytes(state_data) }, out)
            },
        }
    }

    /// Whether the game is in a state that play can reach: a valid turn, and
    /// one filled cell per move made.
    pub fn is_consistent(&self) -> (r: bool)
        ensures
            r == self.wf(),
    {
        match &self.state {
            GameState::TicTacToe(st) => {
                let mut n: u8 = 0;
                let mut r: usize = 0;
                while r < 3
                    invariant
                        r <= 3,
                        n == count_rows(tgrid(st.board), r as int),
                        n <= 3 * r,
                    decreases 3 - r,
                {
                    let mut c: usize = 0;
                    let ghost base = n;
                    while c < 3
                        invariant
                            r < 3,
                            c <= 3,
                            base == count_rows(tgrid(st.board), r as int),
                            base <= 3 * r,
                            n == base + count_cols(tgrid(st.board), r as int, c as int),
                            n <= base + c,
                        decreases 3 - c,
                    {
                        assert(tgrid(st.board)[r as int][c as int] == st.board[r as int][c as int]);
                        if st.board[r][c] == crate::tictactoe::Cell::Empty {
                            n = n + 1;
                        }
                        c += 1;
                    }
                    r += 1;
                }
                assert(count_rows(tgrid(st.board), 3) == empties(tgrid(st.board))) by {
                    reveal_with_fuel(count_rows, 4);
                    reveal_with_fuel(count_cols, 4);
                }
                st.current_turn < 2 && st.move_count as u16 + n as u16 == 9
            },
        }
    }

    /// The player whose turn it is.
    pub fn current_player(&self) -> (p: Option<PlayerId>)
        requires
            self.wf(),
        ensures
            p == Some(match self.state {
                GameState::TicTacToe(st) => st.players[st.current_turn as int],
            }),
    {
        match &self.state {
            GameState::TicTacToe(st) => Some(TicTacToe::current_player(st)),
        }
    }

    /// The game's players other than `player`, in order: those who receive
    /// the state after `player`'s move.
    pub fn others(&self, player: PlayerId) -> (r: Vec<PlayerId>)
        ensures
            r@ == self.players@.filter(|p: PlayerId| p != player),
    {
        let mut r: Vec<PlayerId> = Vec::new();
        let mut i: usize = 0;
        while i < self.players.len()
            invariant
                i <= self.players@.len(),
                r@ == self.players@.subrange(0, i as int).filter(|p: PlayerId| p != player),
            decreases self.players@.len() - i,
        {
            proof {
                assert(self.players@.subrange(0, i + 1) =~= self.players@.subrange(0, i as int).push(self.players@[i as int]));
                self.players@.subrange(0, i as int).lemma_filter_push(self.players@[i as int], |p: PlayerId| p != player);
            }
            if self.players[i] != player {
                r.push(self.players[i]);
            }
            i += 1;
        }
        assert(self.players@.subrange(0, i as int) =~= self.players@);
        r
    }
}

} // verus!
