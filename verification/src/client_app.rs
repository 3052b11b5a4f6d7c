//! The client's application state: the screens, the login form, the lobby
//! and room views, and local games against the bot with their cursor and
//! input state. The terminal front end reads keys and draws; the profile
//! store is written by the caller with what these methods return.
use vstd::prelude::*;
use vstd::string::StringSliceAdditionalSpecFns;

use crate::checkers::{self, checkers_outcome, checkers_rejection, paths_of, Checkers, CheckersMove, CheckersState, Position, Side, Square};
use crate::chess::{self, Chess, ChessMove, ChessState};
use crate::clock::{instant_now, millis_since};
use crate::connect4::{self, c4_outcome, c4_rejection, fgrid, Connect4, Connect4Move, Connect4State};
use crate::i18n::{lookup, Language, Translator};
use crate::messages::RoomSummary;
use crate::snake::{self, Direction, SnakeDelta, SnakeEngine, SnakeInput, SnakeState};
use crate::snake_delta;
use crate::tictactoe::{self, empties, tgrid, ttt_outcome, ttt_rejection, TicTacToe, TicTacToeMove, TicTacToeState};
use crate::turn_based::{count_cols, count_rows};
use crate::types::{game_type_name, random_u64, Difficulty, GameOutcome, GameSettings, GameType, PlayerId, PlayerInfo, RoomId};

verus! {

/// Solo Snake tick period, in milliseconds.
pub const SNAKE_TICK_MS: u64 = 100;

/// Which screen the application shows.
#[derive(Clone, Copy, Debug, PartialEq, Eq, Structural)]
pub enum Screen {
    Login,
    Lobby,
    Room,
    InGame,
}

/// The mode of the login screen.
#[derive(Clone, Copy, Debug, PartialEq, Eq, Structural)]
pub enum LoginMode {
    Login,
    Register,
}

/// The focused field of the login form.
#[derive(Clone, Copy, Debug, PartialEq, Eq, Structural)]
pub enum LoginField {
    Username,
    Password,
}

/// Playing online or locally against the bot.
#[derive(Clone, Copy, Debug, PartialEq, Eq, Structural)]
pub enum GameMode {
    Online,
    Solo { difficulty: Difficulty },
}

/// The game being shown.
#[derive(Debug)]
pub enum ClientGameState {
    TicTacToe(TicTacToeState),
    Connect4(Connect4State),
    Checkers(CheckersState),
    Chess(ChessState),
    Snake(SnakeState),
}

/// Chess input: the chosen source square and a promotion awaiting a piece.
#[derive(Clone, Copy, Debug)]
pub struct ChessInputState {
    pub selected_from: Option<crate::chess::Position>,
    pub pending_promotion: Option<(crate::chess::Position, crate::chess::Position)>,
    pub cursor_row: u8,
    pub cursor_col: u8,
}

/// The chess input at rest.
pub open spec fn chess_input_rest() -> ChessInputState {
    ChessInputState { selected_from: None, pending_promotion: None, cursor_row: 0, cursor_col: 4 }
}

impl ChessInputState {
    pub fn new() -> (r: Self)
        ensures
            r == chess_input_rest(),
    {
        ChessInputState { selected_from: None, pending_promotion: None, cursor_row: 0, cursor_col: 4 }
    }

    pub fn reset(&mut self)
        ensures
            *final(self) == chess_input_rest(),
    {
        *self = ChessInputState::new();
    }
}

/// Stage of the checkers input: nothing chosen, a piece chosen, or a jump
/// chain under way.
#[derive(Clone, Copy, Debug, PartialEq, Eq, Structural)]
pub enum CheckersInputStage {
    Idle,
    TargetSelect,
    Chaining,
}

/// Checkers input: the stage, the chosen piece, and the squares chosen so
/// far (start first).
#[derive(Debug)]
pub struct CheckersInputState {
    pub stage: CheckersInputStage,
    pub origin: Option<Position>,
    pub partial_path: Vec<Position>,
}

/// The checkers input is at rest.
pub open spec fn checkers_input_rest(c: CheckersInputState) -> bool {
    c.stage == CheckersInputStage::Idle && c.origin.is_none() && c.partial_path@.len() == 0
}

impl CheckersInputState {
    pub fn new() -> (r: Self)
        ensures
            checkers_input_rest(r),
    {
        CheckersInputState { stage: CheckersInputStage::Idle, origin: None, partial_path: Vec::new() }
    }

    pub fn reset(&mut self)
        ensures
            checkers_input_rest(*final(self)),
    {
        self.stage = CheckersInputStage::Idle;
        self.origin = None;
        self.partial_path = Vec::new();
    }
}

/// The client's state.
#[derive(Debug)]
pub struct App {
    pub running: bool,
    pub screen: Screen,
    pub login_mode: LoginMode,
    pub translator: Translator,
    pub server_url: String,
    pub username_input: String,
    pub password_input: String,
    pub active_field: LoginField,
    pub login_error: Option<String>,
    pub login_loading: bool,
    pub authenticated: bool,
    pub auth_token: Option<String>,
    pub rooms: Vec<RoomSummary>,
    pub selected_room: usize,
    pub current_room_id: Option<RoomId>,
    pub current_room_players: Vec<PlayerInfo>,
    pub current_game_type: GameType,
    pub current_max_players: u8,
    pub game_mode: GameMode,
    pub selected_game_type: GameType,
    pub game_state: Option<ClientGameState>,
    pub cursor_row: u8,
    pub cursor_col: u8,
    pub game_over: Option<GameOutcome>,
    pub my_player_id: Option<PlayerId>,
    pub selecting_solo_game: bool,
    pub selecting_difficulty: bool,
    pub selecting_multiplayer_game: bool,
    pub status_error: Option<String>,
    pub show_help: bool,
    pub rematch_pending: bool,
    pub rematch_incoming: bool,
    /// Whether the player moved first in the last solo game (`None`: no solo
    /// game yet); it alternates on each new solo game.
    pub solo_player_went_first: Option<bool>,
    pub checkers_input: CheckersInputState,
    pub chess_input: ChessInputState,
    pub status_message: Option<String>,
    pub snake_pending_direction: Option<Direction>,
    pub snake_last_sent_direction: Option<Direction>,
    pub snake_bot_player_id: Option<PlayerId>,
    pub snake_bot_difficulty: Option<Difficulty>,
    pub solo_snake_last_tick: Option<std::time::Instant>,
    pub snake_last_applied_tick: Option<u64>,
}

/// A white-space character, by the Unicode White_Space property (what
/// `char::is_whitespace` tests).
pub open spec fn is_white_space(c: char) -> bool {
    let n = c as int;
    ||| 0x9 <= n <= 0xD
    ||| n == 0x20 || n == 0x85 || n == 0xA0 || n == 0x1680
    ||| 0x2000 <= n <= 0x200A
    ||| n == 0x2028 || n == 0x2029 || n == 0x202F || n == 0x205F || n == 0x3000
}

/// The text with its leading and trailing white space removed.
pub open spec fn trimmed(s: Seq<char>) -> Seq<char>
    decreases s.len(),
{
    if s.len() > 0 && is_white_space(s[0]) {
        trimmed(s.drop_first())
    } else if s.len() > 0 && is_white_space(s.last()) {
        trimmed(s.drop_last())
    } else {
        s
    }
}

/// Whether `c` is white space (see `is_white_space`).
fn white_space(c: char) -> (r: bool)
    ensures
        r == is_white_space(c),
{
    let n = c as u32;
    (0x9 <= n && n <= 0xD) || n == 0x20 || n == 0x85 || n == 0xA0 || n == 0x1680 || (0x2000 <= n && n
        <= 0x200A) || n == 0x2028 || n == 0x2029 || n == 0x202F || n == 0x205F || n == 0x3000
}

proof fn lemma_trimmed_all_white(s: Seq<char>)
    requires
        forall|i: int| 0 <= i < s.len() ==> is_white_space(#[trigger] s[i]),
    ensures
        trimmed(s) == Seq::<char>::empty(),
    decreases s.len(),
{
    if s.len() > 0 {
        assert(is_white_space(s[0]));
        lemma_trimmed_all_white(s.drop_first());
    } else {
        assert(s =~= Seq::<char>::empty());
    }
}

/// Trimming keeps exactly the part between the leading and the trailing
/// white space.
proof fn lemma_trimmed_range(s: Seq<char>, a: int, b: int)
    requires
        0 <= a < b <= s.len(),
        forall|i: int| 0 <= i < a ==> is_white_space(#[trigger] s[i]),
        forall|i: int| b <= i < s.len() ==> is_white_space(#[trigger] s[i]),
        !is_white_space(s[a]),
        !is_white_space(s[b - 1]),
    ensures
        trimmed(s) == s.subrange(a, b),
    decreases s.len(),
{
    if a > 0 {
        assert(is_white_space(s[0]));
        let t = s.drop_first();
        assert forall|i: int| 0 <= i < a - 1 implies is_white_space(#[trigger] t[i]) by {
            assert(t[i] == s[i + 1]);
        }
        assert forall|i: int| b - 1 <= i < t.len() implies is_white_space(#[trigger] t[i]) by {
            assert(t[i] == s[i + 1]);
        }
        lemma_trimmed_range(t, a - 1, b - 1);
        assert(t.subrange(a - 1, b - 1) =~= s.subrange(a, b));
    } else if b < s.len() {
        assert(is_white_space(s.last()));
        let t = s.drop_last();
        assert forall|i: int| b <= i < t.len() implies is_white_space(#[trigger] t[i]) by {
            assert(t[i] == s[i]);
        }
        lemma_trimmed_range(t, a, b);
        assert(t.subrange(a, b) =~= s.subrange(a, b));
    } else {
        assert(s.subrange(0, s.len() as int) =~= s);
    }
}

/// `s` without its leading and trailing white space (what `str::trim`
/// gives).
fn trim_text(s: &str) -> (r: &str)
    ensures
        r@ == trimmed(s@),
{
    let n = s.unicode_len();
    let mut a: usize = 0;
    while a < n && white_space(s.get_char(a))
        invariant
            n == s@.len(),
            a <= n,
            forall|i: int| 0 <= i < a ==> is_white_space(#[trigger] s@[i]),
        decreases n - a,
    {
        a += 1;
    }
    if a == n {
        proof {
            lemma_trimmed_all_white(s@);
        }
        return s.substring_char(0, 0);
    }
    let mut b: usize = n;
    while b > a + 1 && white_space(s.get_char(b - 1))
        invariant
            n == s@.len(),
            a < b <= n,
            forall|i: int| b <= i < n ==> is_white_space(#[trigger] s@[i]),
        decreases b,
    {
        b -= 1;
    }
    proof {
        lemma_trimmed_range(s@, a as int, b as int);
    }
    s.substring_char(a, b)
}

/// Cursor row and column a game starts with: Connect 4 centre column,
/// Checkers on the player's first man, otherwise the centre.
pub open spec fn start_cursor(g: GameType) -> (u8, u8) {
    match g {
        GameType::Connect4 => (0, 3),
        GameType::Checkers => (5, 0),
        _ => (1, 1),
    }
}

fn start_cursor_of(g: GameType) -> (r: (u8, u8))
    ensures
        r == start_cursor(g),
{
    match g {
        GameType::Connect4 => (0, 3),
        GameType::Checkers => (5, 0),
        _ => (1, 1),
    }
}

/// What the form is refused for, as a translation key: an empty (or blank)
/// name, or a password under 8 bytes at registration.
pub open spec fn login_form_problem(mode: LoginMode, username: Seq<char>, password_bytes: nat) -> Option<Seq<char>> {
    if trimmed(username).len() == 0 {
        Some("login.error_empty_username"@)
    } else if mode == LoginMode::Register && password_bytes < 8 {
        Some("login.error_short_password"@)
    } else {
        None
    }
}

/// The translation of `key` in `t` (the key itself when missing).
pub open spec fn translated(t: Translator, key: Seq<char>) -> Seq<char> {
    match lookup(t.table(), key) {
        Some(v) => v,
        None => key,
    }
}

/// The result of a game for the record: a win for `me`, a loss, or a draw.
pub open spec fn result_word(outcome: GameOutcome, me: Option<PlayerId>) -> Seq<char> {
    match outcome {
        GameOutcome::Win(p) => if Some(p) == me {
            "win"@
        } else {
            "loss"@
        },
        GameOutcome::Draw => "draw"@,
    }
}

impl App {
    /// A fresh client on the login screen; `saved_username` is the name kept
    /// in the profile, if any.
    pub fn new(language: Language, saved_username: Option<String>, server_url: String) -> (app: App)
        ensures
            app.running,
            app.screen == Screen::Login,
            app.login_mode == LoginMode::Login,
            app.translator.table() == crate::i18n::language_table(language),
            app.server_url == server_url,
            app.username_input@ == match saved_username {
                Some(u) => u@,
                None => Seq::empty(),
            },
            app.password_input@.len() == 0,
            app.active_field == LoginField::Username,
            app.login_error.is_none(),
            !app.login_loading,
            !app.authenticated,
            app.auth_token.is_none(),
            app.rooms@.len() == 0,
            app.current_room_id.is_none(),
            app.game_mode == GameMode::Online,
            app.selected_game_type == GameType::TicTacToe,
            app.current_game_type == GameType::TicTacToe,
            app.current_max_players == 2,
            app.game_state.is_none(),
            app.game_over.is_none(),
            app.my_player_id.is_none(),
            (app.cursor_row, app.cursor_col) == (1u8, 1u8),
            app.solo_player_went_first.is_none(),
            checkers_input_rest(app.checkers_input),
            app.chess_input == chess_input_rest(),
    {
        let username = match saved_username {
            Some(u) => u,
            None => String::new(),
        };
        App {
            running: true,
            screen: Screen::Login,
            login_mode: LoginMode::Login,
            translator: Translator::new(language),
            server_url,
            username_input: username,
            password_input: String::new(),
            active_field: LoginField::Username,
            login_error: None,
            login_loading: false,
            authenticated: false,
            auth_token: None,
            rooms: Vec::new(),
            selected_room: 0,
            current_room_id: None,
            current_room_players: Vec::new(),
            current_game_type: GameType::TicTacToe,
            current_max_players: 2,
            game_mode: GameMode::Online,
            selected_game_type: GameType::TicTacToe,
            game_state: None,
            cursor_row: 1,
            cursor_col: 1,
            game_over: None,
            my_player_id: None,
            selecting_solo_game: false,
            selecting_difficulty: false,
            selecting_multiplayer_game: false,
            status_error: None,
            show_help: false,
            rematch_pending: false,
            rematch_incoming: false,
            solo_player_went_first: None,
            checkers_input: CheckersInputState::new(),
            chess_input: ChessInputState::new(),
            status_message: None,
            snake_pending_direction: None,
            snake_last_sent_direction: None,
            snake_bot_player_id: None,
            snake_bot_difficulty: None,
            solo_snake_last_tick: None,
            snake_last_applied_tick: None,
        }
    }

    pub fn quit(&mut self)
        ensures
            *final(self) == (App { running: false, ..*old(self) }),
    {
        self.running = false;
    }

    /// Switches between logging in and registering; clears the form error.
    pub fn toggle_login_mode(&mut self)
        ensures
            *final(self) == (App {
                login_mode: if old(self).login_mode == LoginMode::Login {
                    LoginMode::Register
                } else {
                    LoginMode::Login
                },
                login_error: None,
                ..*old(self)
            }),
    {
        self.login_mode = match self.login_mode {
            LoginMode::Login => LoginMode::Register,
            LoginMode::Register => LoginMode::Login,
        };
        self.login_error = None;
    }

    /// Moves the focus to the other field of the form.
    pub fn toggle_field(&mut self)
        ensures
            *final(self) == (App {
                active_field: if old(self).active_field == LoginField::Username {
                    LoginField::Password
                } else {
                    LoginField::Username
                },
                ..*old(self)
            }),
    {
        self.active_field = match self.active_field {
            LoginField::Username => LoginField::Password,
            LoginField::Password => LoginField::Username,
        };
    }

    /// Switches the interface language.
    pub fn set_language(&mut self, lang: Language)
        ensures
            final(self).translator.table() == crate::i18n::language_table(lang),
            final(self).translator.lang() == lang,
            final(self).screen == old(self).screen,
            final(self).username_input == old(self).username_input,
    {
        self.translator = Translator::new(lang);
    }

    /// Why the login form cannot be sent, translated; `None` when it can.
    pub fn validate_login_form(&self) -> (r: Option<String>)
        ensures
            match login_form_problem(
                self.login_mode,
                self.username_input@,
                vstd::utf8::encode_utf8(self.password_input@).len(),
            ) {
                Some(key) => r matches Some(m) && m@ == translated(self.translator, key),
                None => r is None,
            },
    {
        let name = trim_text(self.username_input.as_str());
        if name.unicode_len() == 0 {
            let m = self.translator.get("login.error_empty_username");
            return Some(m.to_owned());
        }
        if self.login_mode == LoginMode::Register && self.password_input.as_str().as_bytes().len() < 8 {
            let m = self.translator.get("login.error_short_password");
            return Some(m.to_owned());
        }
        None
    }
}

impl App {
    /// The shown game's state is one its engine can work on.
    pub open spec fn wf(&self) -> bool {
        match self.game_state {
            Some(ClientGameState::TicTacToe(s)) => s.wf(),
            Some(ClientGameState::Connect4(s)) => s.wf(),
            Some(ClientGameState::Checkers(s)) => s.wf(),
            Some(ClientGameState::Chess(s)) => s.wf(),
            _ => true,
        }
    }

    /// Authentication succeeded: the token is kept, the password cleared, and
    /// the lobby shown. Returns the user name for the profile store.
    pub fn on_auth_success(&mut self, token: String) -> (name: String)
        ensures
            name == old(self).username_input,
            on_auth_success_outcome(*old(self), *final(self), token),
    {
        self.auth_token = Some(token);
        self.authenticated = true;
        self.login_loading = false;
        self.login_error = None;
        self.password_input = String::new();
        self.screen = Screen::Lobby;
        self.username_input.clone()
    }

    /// Authentication failed: the reason is shown on the form.
    pub fn on_auth_failure(&mut self, reason: String)
        ensures
            on_auth_failure_outcome(*old(self), *final(self), reason),
    {
        self.login_loading = false;
        self.login_error = Some(reason);
    }

    /// A new room list; the selection is kept inside it.
    pub fn update_rooms(&mut self, rooms: Vec<RoomSummary>)
        ensures
            update_rooms_outcome(*old(self), *final(self), rooms),
    {
        let n = rooms.len();
        self.rooms = rooms;
        if self.selected_room >= n && n > 0 {
            self.selected_room = n - 1;
        }
    }

    /// We joined a room: its members are shown.
    pub fn on_room_joined(&mut self, room_id: RoomId, players: Vec<PlayerInfo>)
        ensures
            on_room_joined_outcome(*old(self), *final(self), room_id, players),
    {
        self.current_room_id = Some(room_id);
        self.current_room_players = players;
        self.screen = Screen::Room;
    }

    /// We left the room: back to the lobby with no game.
    pub fn on_room_left(&mut self)
        ensures
            on_room_left_outcome(*old(self), *final(self)),
    {
        self.current_room_id = None;
        self.current_room_players = Vec::new();
        self.game_state = None;
        self.game_over = None;
        self.rematch_pending = false;
        self.rematch_incoming = false;
        self.cursor_row = 1;
        self.cursor_col = 1;
        self.screen = Screen::Lobby;
    }

    /// The game ended. Returns what the match history records: the game's
    /// name and "win", "loss" or "draw" from our side.
    pub fn on_game_over(&mut self, outcome: GameOutcome) -> (r: (&'static str, &'static str))
        ensures
            r.0@ == game_type_name(old(self).current_game_type),
            r.1@ == result_word(outcome, old(self).my_player_id),
            on_game_over_outcome(*old(self), *final(self), outcome),
    {
        self.game_over = Some(outcome);
        let word = match outcome {
            GameOutcome::Win(p) => {
                if Some(p) == self.my_player_id {
                    "win"
                } else {
                    "loss"
                }
            },
            GameOutcome::Draw => "draw",
        };
        (self.current_game_type.display_name(), word)
    }

    /// A player joined our room (listed once).
    pub fn on_player_joined(&mut self, player: PlayerInfo)
        ensures
            on_player_joined_outcome(*old(self), *final(self), player),
    {
        let mut i: usize = 0;
        let ghost ps = self.current_room_players@;
        while i < self.current_room_players.len()
            invariant
                i <= ps.len(),
                ps == self.current_room_players@,
                forall|j: int| 0 <= j < i ==> ps[j].id != player.id,
            decreases ps.len() - i,
        {
            if self.current_room_players[i].id == player.id {
                proof {
                    assert(crate::handler::ids(ps)[i as int] == player.id);
                }
                return;
            }
            i += 1;
        }
        proof {
            assert(!crate::handler::ids(ps).contains(player.id)) by {
                if crate::handler::ids(ps).contains(player.id) {
                    let k = choose|k: int| 0 <= k < ps.len() && crate::handler::ids(ps)[k] == player.id;
                    assert(ps[k].id == player.id);
                }
            }
        }
        self.current_room_players.push(player);
    }

    /// A player left our room; any rematch exchange is called off.
    pub fn on_player_left(&mut self, player_id: PlayerId)
        ensures
            on_player_left_outcome(*old(self), *final(self), player_id),
    {
        let ghost f = |p: PlayerInfo| p.id != player_id;
        let mut kept: Vec<PlayerInfo> = Vec::new();
        let mut old_players: Vec<PlayerInfo> = Vec::new();
        std::mem::swap(&mut old_players, &mut self.current_room_players);
        let ghost ps = old_players@;
        let n = old_players.len();
        assert(ps.len() == n);
        let mut i: usize = 0;
        while old_players.len() > 0
            invariant
                f == (|p: PlayerInfo| p.id != player_id),
                ps.len() <= usize::MAX,
                i + old_players@.len() == ps.len(),
                old_players@ == ps.skip(i as int),
                kept@ == ps.subrange(0, i as int).filter(f),
            decreases old_players@.len(),
        {
            let p = old_players.remove(0);
            proof {
                assert(p == ps[i as int]);
                assert(old_players@ =~= ps.skip(i + 1));
                assert(ps.subrange(0, i + 1) =~= ps.subrange(0, i as int).push(p));
                ps.subrange(0, i as int).lemma_filter_push(p, f);
            }
            if p.id != player_id {
                kept.push(p);
            }
            i += 1;
        }
        assert(ps.subrange(0, i as int) =~= ps);
        self.current_room_players = kept;
        self.rematch_pending = false;
        self.rematch_incoming = false;
    }

    /// A rematch was accepted: the game-over state, the rematch flags and the
    /// inputs are cleared for the next game.
    pub fn on_rematch_accepted(&mut self)
        ensures
            on_rematch_accepted_outcome(*old(self), *final(self)),
    {
        self.game_over = None;
        self.rematch_pending = false;
        self.rematch_incoming = false;
        let (r, c) = start_cursor_of(self.current_game_type);
        self.cursor_row = r;
        self.cursor_col = c;
        self.checkers_input.reset();
        self.chess_input.reset();
        self.status_message = None;
    }

    /// A rematch was declined: as leaving the room.
    pub fn on_rematch_declined(&mut self)
        ensures
            on_rematch_declined_outcome(*old(self), *final(self)),
    {
        self.on_room_left();
    }

    /// Leaves a solo game: back to the lobby, or to the login screen when not
    /// signed in.
    pub fn leave_solo_game(&mut self)
        ensures
            leave_solo_game_outcome(*old(self), *final(self)),
    {
        self.game_mode = GameMode::Online;
        self.game_state = None;
        self.game_over = None;
        self.solo_player_went_first = None;
        self.checkers_input.reset();
        self.chess_input.reset();
        self.status_message = None;
        self.screen = if self.authenticated {
            Screen::Lobby
        } else {
            Screen::Login
        };
    }

    /// Whether we may move now: in a turn-based game, whether the player to
    /// move is us; in Snake, whether the game is still on.
    pub fn is_our_turn(&self) -> (r: bool)
        requires
            self.wf(),
        ensures
            r == our_turn(*self),
    {
        let current = match &self.game_state {
            None => {
                return false;
            },
            Some(ClientGameState::TicTacToe(s)) => TicTacToe::current_player(s),
            Some(ClientGameState::Connect4(s)) => Connect4::current_player(s),
            Some(ClientGameState::Checkers(s)) => Checkers::current_player(s),
            Some(ClientGameState::Chess(s)) => Chess::current_player(s),
            Some(ClientGameState::Snake(_)) => {
                return self.game_over.is_none();
            },
        };
        Some(current) == self.my_player_id
    }

    /// Queues a Snake direction; returns whether it differs from the one
    /// queued (false, and nothing queued, outside Snake).
    pub fn snake_queue_direction(&mut self, dir: Direction) -> (changed: bool)
        ensures
            !(old(self).game_state matches Some(ClientGameState::Snake(_))) ==> !changed && *final(self) == *old(self),
            old(self).game_state matches Some(ClientGameState::Snake(_)) ==> changed == (old(
                self,
            ).snake_pending_direction != Some(dir)) && *final(self) == (App {
                snake_pending_direction: Some(dir),
                ..*old(self)
            }),
    {
        match &self.game_state {
            Some(ClientGameState::Snake(_)) => {},
            _ => {
                return false;
            },
        }
        let changed = self.snake_pending_direction != Some(dir);
        self.snake_pending_direction = Some(dir);
        changed
    }

    /// One solo Snake step, when one is due (`SNAKE_TICK_MS` after the last,
    /// or at once when none was taken): the step time is recorded, then the
    /// engine advances with our queued direction and the bot's move
    /// (`snake_tick_outcome`), and a finished game is shown as over. Outside
    /// an unfinished solo Snake game nothing changes.
    pub fn solo_snake_tick(&mut self)
        ensures
            !solo_snake_running(*old(self)) ==> *final(self) == *old(self),
            *final(self) == *old(self) || (final(self).solo_snake_last_tick.is_some() && *final(self) == (App {
                solo_snake_last_tick: final(self).solo_snake_last_tick,
                game_state: final(self).game_state,
                game_over: final(self).game_over,
                ..*old(self)
            }) && snake_tick_outcome(*old(self), *final(self))),
            solo_snake_running(*old(self)) && old(self).solo_snake_last_tick.is_none() ==> *final(self)
                != *old(self),
    {
        match self.game_mode {
            GameMode::Solo { .. } => {},
            GameMode::Online => {
                return;
            },
        }
        if self.game_over.is_some() {
            return;
        }
        match &self.game_state {
            Some(ClientGameState::Snake(_)) => {},
            _ => {
                return;
            },
        }
        let due = match &self.solo_snake_last_tick {
            Some(t) => millis_since(t) >= SNAKE_TICK_MS,
            None => true,
        };
        if !due {
            return;
        }
        self.solo_snake_last_tick = Some(instant_now());
        let ghost a1 = *self;
        self.advance_solo_snake();
        assert(snake_tick_outcome(a1, *self));
    }

    /// The engine step of a solo Snake tick (`snake_tick_outcome`).
    #[verifier::spinoff_prover]
    fn advance_solo_snake(&mut self)
        ensures
            *final(self) == (App { game_state: final(self).game_state, game_over: final(self).game_over, ..*old(self) }),
            snake_tick_outcome(*old(self), *final(self)),
    {
        let (me, bot, difficulty) = match (self.my_player_id, self.snake_bot_player_id, self.snake_bot_difficulty) {
            (Some(a), Some(b), Some(d)) => (a, b, d),
            _ => {
                return;
            },
        };
        let mut gs: Option<ClientGameState> = None;
        std::mem::swap(&mut gs, &mut self.game_state);
        let state = match gs {
            Some(ClientGameState::Snake(st)) => st,
            _ => {
                self.game_state = gs;
                return;
            },
        };
        if !snake::is_steppable(&state) {
            self.game_state = Some(ClientGameState::Snake(state));
            return;
        }
        let s1 = solo_snake_step(state, me, self.snake_pending_direction, bot, difficulty);
        let go = match s1.game_over {
            Some(o) => Some(o),
            None => self.game_over,
        };
        self.game_over = go;
        self.game_state = Some(ClientGameState::Snake(s1));
    }

    /// A Snake tick from the server: replayed on our copy when it follows
    /// the game's current tick, with the outcome shown when it ends the game;
    /// otherwise dropped, to wait for the next full state.
    #[verifier::spinoff_prover]
    pub fn on_snake_delta(&mut self, delta: &SnakeDelta)
        ensures
            delta_outcome(*old(self), *final(self), *delta),
    {
        let follows = match &self.game_state {
            Some(ClientGameState::Snake(st)) => st.tick < u64::MAX && delta.tick == st.tick + 1,
            _ => false,
        };
        if !follows {
            return;
        }
        let mut gs: Option<ClientGameState> = None;
        std::mem::swap(&mut gs, &mut self.game_state);
        let mut state = match gs {
            Some(ClientGameState::Snake(st)) => st,
            _ => {
                self.game_state = gs;
                return;
            },
        };
        snake_delta::apply_delta(&mut state, delta);
        let go = match delta.game_over {
            Some(o) => Some(o),
            None => self.game_over,
        };
        self.game_over = go;
        self.snake_last_applied_tick = Some(delta.tick);
        self.game_state = Some(ClientGameState::Snake(state));
    }

    /// Whether a square of the checkers board is dark (playable).
    pub fn checkers_is_dark_square(row: u8, col: u8) -> (r: bool)
        ensures
            r == ((row + col) % 2 == 1),
    {
        (row as u16 + col as u16) % 2 == 1
    }

    /// Moves the checkers cursor by one step, staying on the board.
    pub fn checkers_cursor_step(&mut self, drow: i32, dcol: i32)
        ensures
            ({
                let r = old(self).cursor_row + drow;
                let c = old(self).cursor_col + dcol;
                if 0 <= r < 8 && 0 <= c < 8 {
                    *final(self) == (App { cursor_row: r as u8, cursor_col: c as u8, ..*old(self) })
                } else {
                    *final(self) == *old(self)
                }
            }),
    {
        let r = self.cursor_row as i64 + drow as i64;
        let c = self.cursor_col as i64 + dcol as i64;
        if 0 <= r && r < 8 && 0 <= c && c < 8 {
            self.cursor_row = r as u8;
            self.cursor_col = c as u8;
        }
    }

    /// Drops the checkers selection and any message.
    pub fn checkers_cancel_selection(&mut self)
        ensures
            checkers_input_rest(final(self).checkers_input),
            *final(self) == (App { checkers_input: final(self).checkers_input, status_message: None, ..*old(self) }),
    {
        self.checkers_input.reset();
        self.status_message = None;
    }

    /// A game state arrived (decoded by the caller for the selected game;
    /// `None` when it did not decode). It replaces the shown one; in the room
    /// it opens the game screen with the game's starting cursor and inputs.
    pub fn on_game_state(&mut self, decoded: Option<ClientGameState>)
        ensures
            on_game_state_outcome(*old(self), *final(self), decoded),
    {
        let state = match decoded {
            Some(s) => s,
            None => {
                return;
            },
        };
        match &state {
            ClientGameState::Snake(sn) => {
                self.snake_last_applied_tick = Some(sn.tick);
            },
            _ => {},
        }
        self.game_state = Some(state);
        if self.screen == Screen::Room {
            self.screen = Screen::InGame;
            let (r, c) = start_cursor_of(self.selected_game_type);
            self.cursor_row = r;
            self.cursor_col = c;
            if self.selected_game_type == GameType::Checkers {
                self.checkers_input.reset();
            }
            if self.selected_game_type == GameType::Chess {
                self.chess_input.reset();
            }
        }
    }
}

/// `s1` is `s0` after the mover played `mv` (Tic-Tac-Toe).
pub open spec fn ttt_played(s0: TicTacToeState, mv: TicTacToeMove, s1: TicTacToeState) -> bool {
    &&& tgrid(s1.board) == tictactoe::tset(tgrid(s0.board), mv.row as int, mv.col as int, tictactoe::mark(s0.current_turn as int))
    &&& s1.players == s0.players
    &&& s1.move_count == s0.move_count + 1
    &&& s1.current_turn == 1 - s0.current_turn
}

/// The bot's reply in `s0` gives `s1`: a move the engine accepts for the
/// player to move, played; or, when the bot has none to give, no move.
pub open spec fn ttt_replied(s0: TicTacToeState, played: bool, s1: TicTacToeState) -> bool {
    &&& !played ==> s1 == s0
    &&& played ==> exists|bm: TicTacToeMove|
        ttt_rejection(s0, s0.players[s0.current_turn as int], bm) is None && #[trigger] ttt_played(s0, bm, s1)
}

/// `s1` is `s0` after the mover dropped a disc in `col` (Connect 4).
pub open spec fn c4_played(s0: Connect4State, col: int, s1: Connect4State) -> bool {
    &&& fgrid(s1.board) == connect4::dropped(fgrid(s0.board), col, connect4::disc(s0.current_turn as int))
    &&& s1.players == s0.players
    &&& s1.move_count == s0.move_count + 1
    &&& s1.current_turn == 1 - s0.current_turn
}

/// The bot's reply in Connect 4 (see `ttt_replied`).
pub open spec fn c4_replied(s0: Connect4State, played: bool, s1: Connect4State) -> bool {
    &&& !played ==> s1 == s0
    &&& played ==> exists|c: int|
        0 <= c < 7 && c4_rejection(s0, s0.players[s0.current_turn as int], Connect4Move { col: c as u8 }) is None
            && #[trigger] c4_played(s0, c, s1)
}

fn ttt_empty_count(st: &TicTacToeState) -> (n: u8)
    ensures
        n == empties(tgrid(st.board)),
{
    let mut n: u8 = 0;
    let mut r: usize = 0;
    while r < 3
        invariant
            r <= 3,
            n == count_rows(tgrid(st.board), r as int),
            n <= 3 * r,
        decreases 3 - r,
    {
        let mut c: usize = 0;
        let ghost base = n;
        while c < 3
            invariant
                r < 3,
                c <= 3,
                base == count_rows(tgrid(st.board), r as int),
                base <= 3 * r,
                n == base + count_cols(tgrid(st.board), r as int, c as int),
                n <= base + c,
            decreases 3 - c,
        {
            assert(tgrid(st.board)[r as int][c as int] == st.board[r as int][c as int]);
            if st.board[r][c] == tictactoe::Cell::Empty {
                n = n + 1;
            }
            c += 1;
        }
        r += 1;
    }
    assert(count_rows(tgrid(st.board), 3) == empties(tgrid(st.board))) by {
        reveal_with_fuel(count_rows, 4);
        reveal_with_fuel(count_cols, 4);
    }
    n
}

/// The bot answers in Tic-Tac-Toe.
fn ttt_bot_reply(s: &mut TicTacToeState, difficulty: Difficulty) -> (played: bool)
    requires
        old(s).wf(),
    ensures
        final(s).wf(),
        ttt_replied(*old(s), played, *final(s)),
        played == (empties(tgrid(old(s).board)) > 0 && old(s).move_count + empties(tgrid(old(s).board)) < 255
            && (difficulty == Difficulty::Hard ==> ttt_rejection(
            *old(s),
            old(s).players[old(s).current_turn as int],
            TicTacToeMove { row: tictactoe::best_cell(*old(s)).0, col: tictactoe::best_cell(*old(s)).1 },
        ) is None)),
{
    let e = ttt_empty_count(s);
    if e == 0 || s.move_count as u16 + e as u16 >= 255 {
        return false;
    }
    let bm = tictactoe::bot_move(s, difficulty);
    let bot = TicTacToe::current_player(s);
    if TicTacToe::validate_move(s, bot, &bm).is_err() {
        return false;
    }
    let ghost s0 = *s;
    TicTacToe::apply_move(s, bot, &bm);
    assert(ttt_played(s0, bm, *s));
    true
}

/// The bot answers in Connect 4.
fn c4_bot_reply(s: &mut Connect4State, difficulty: Difficulty) -> (played: bool)
    requires
        old(s).wf(),
    ensures
        final(s).wf(),
        c4_replied(*old(s), played, *final(s)),
        played == (old(s).move_count < 248 && (exists|k: int| 0 <= k < 7 && #[trigger] fgrid(old(s).board)[5][k]
            == connect4::Cell::Empty) && (difficulty == Difficulty::Hard ==> c4_rejection(
            *old(s),
            old(s).players[old(s).current_turn as int],
            Connect4Move { col: connect4::best_column(*old(s)) },
        ) is None)),
{
    if s.move_count >= 248 {
        return false;
    }
    let mut open = false;
    let mut c: usize = 0;
    while c < 7
        invariant
            c <= 7,
            open ==> exists|k: int| 0 <= k < 7 && #[trigger] fgrid(s.board)[5][k] == connect4::Cell::Empty,
            !open ==> forall|k: int| 0 <= k < c ==> #[trigger] fgrid(s.board)[5][k] != connect4::Cell::Empty,
        decreases 7 - c,
    {
        assert(fgrid(s.board)[5][c as int] == s.board[5][c as int]);
        if s.board[5][c] == connect4::Cell::Empty {
            open = true;
        }
        c += 1;
    }
    if !open {
        return false;
    }
    let bm = connect4::bot_move(s, difficulty);
    let bot = Connect4::current_player(s);
    if Connect4::validate_move(s, bot, &bm).is_err() {
        return false;
    }
    let ghost s0 = *s;
    Connect4::apply_move(s, bot, &bm);
    assert(c4_played(s0, bm.col as int, *s));
    true
}

/// A solo Tic-Tac-Toe move `mv` by `me` in `s0` (game over `go0`) gives
/// `s1` and `go1`: a refused move changes nothing; an accepted one is played
/// and ends the game, or the bot replies (see `ttt_replied`); the game is
/// over when the resulting position is decided.
#[verifier::opaque]
pub open spec fn ttt_solo(
    s0: TicTacToeState,
    me: PlayerId,
    mv: TicTacToeMove,
    go0: Option<GameOutcome>,
    s1: TicTacToeState,
    go1: Option<GameOutcome>,
) -> bool {
    if ttt_rejection(s0, me, mv) is Some || s0.move_count == 255 {
        s1 == s0 && go1 == go0
    } else {
        exists|mid: TicTacToeState|
            #[trigger] ttt_played(s0, mv, mid) && match ttt_outcome(tgrid(mid.board), mid.move_count as int, mid.players) {
                Some(o) => s1 == mid && go1 == Some(o),
                None => exists|played: bool|
                    #[trigger] ttt_replied(mid, played, s1) && go1 == if played {
                        match ttt_outcome(tgrid(s1.board), s1.move_count as int, s1.players) {
                            Some(o) => Some(o),
                            None => go0,
                        }
                    } else {
                        go0
                    },
            }
    }
}

/// A solo Connect 4 move (see `ttt_solo`).
#[verifier::opaque]
pub open spec fn c4_solo(
    s0: Connect4State,
    me: PlayerId,
    col: u8,
    go0: Option<GameOutcome>,
    s1: Connect4State,
    go1: Option<GameOutcome>,
) -> bool {
    if c4_rejection(s0, me, Connect4Move { col }) is Some || s0.move_count == 255 {
        s1 == s0 && go1 == go0
    } else {
        exists|mid: Connect4State|
            #[trigger] c4_played(s0, col as int, mid) && match c4_outcome(fgrid(mid.board), mid.move_count as int, mid.players) {
                Some(o) => s1 == mid && go1 == Some(o),
                None => exists|played: bool|
                    #[trigger] c4_replied(mid, played, s1) && go1 == if played {
                        match c4_outcome(fgrid(s1.board), s1.move_count as int, s1.players) {
                            Some(o) => Some(o),
                            None => go0,
                        }
                    } else {
                        go0
                    },
            }
    }
}

fn ttt_solo_step(
    st: TicTacToeState,
    me: PlayerId,
    mv: TicTacToeMove,
    difficulty: Difficulty,
    go0: Option<GameOutcome>,
) -> (r: (TicTacToeState, Option<GameOutcome>))
    requires
        st.wf(),
    ensures
        r.0.wf(),
        ttt_solo(st, me, mv, go0, r.0, r.1),
{
    reveal(ttt_solo);
    let mut st = st;
    let ghost s0 = st;
    if TicTacToe::validate_move(&st, me, &mv).is_err() || st.move_count == 255 {
        return (st, go0);
    }
    TicTacToe::apply_move(&mut st, me, &mv);
    let ghost mid = st;
    assert(ttt_played(s0, mv, mid));
    match TicTacToe::is_terminal(&st) {
        Some(o) => {
            return (st, Some(o));
        },
        None => {},
    }
    let played = ttt_bot_reply(&mut st, difficulty);
    assert(ttt_replied(mid, played, st));
    let mut go = go0;
    if played {
        match TicTacToe::is_terminal(&st) {
            Some(o) => {
                go = Some(o);
            },
            None => {},
        }
    }
    (st, go)
}

fn c4_solo_step(
    st: Connect4State,
    me: PlayerId,
    col: u8,
    difficulty: Difficulty,
    go0: Option<GameOutcome>,
) -> (r: (Connect4State, Option<GameOutcome>))
    requires
        st.wf(),
    ensures
        r.0.wf(),
        c4_solo(st, me, col, go0, r.0, r.1),
{
    reveal(c4_solo);
    let mut st = st;
    let ghost s0 = st;
    let mv = Connect4Move { col };
    if Connect4::validate_move(&st, me, &mv).is_err() || st.move_count == 255 {
        return (st, go0);
    }
    Connect4::apply_move(&mut st, me, &mv);
    let ghost mid = st;
    assert(c4_played(s0, col as int, mid));
    match Connect4::is_terminal(&st) {
        Some(o) => {
            return (st, Some(o));
        },
        None => {},
    }
    let played = c4_bot_reply(&mut st, difficulty);
    assert(c4_replied(mid, played, st));
    let mut go = go0;
    if played {
        match Connect4::is_terminal(&st) {
            Some(o) => {
                go = Some(o);
            },
            None => {},
        }
    }
    (st, go)
}

impl App {
    /// Plays our move at (`row`, `col`) in a solo Tic-Tac-Toe or Connect 4
    /// game (Connect 4 uses the column only), then lets the bot answer (see
    /// `ttt_solo`, `c4_solo`). Other games and online play are untouched.
    pub fn play_solo_move(&mut self, row: u8, col: u8)
        requires
            old(self).wf(),
        ensures
            final(self).wf(),
            solo_move_outcome(*old(self), *final(self), row, col),
    {
        let difficulty = match self.game_mode {
            GameMode::Solo { difficulty } => difficulty,
            GameMode::Online => {
                return;
            },
        };
        let me = match self.my_player_id {
            Some(id) => id,
            None => {
                return;
            },
        };
        let (gs1, go1) = match &self.game_state {
            Some(ClientGameState::TicTacToe(st)) => {
                let (a, b) = ttt_solo_step(*st, me, TicTacToeMove { row, col }, difficulty, self.game_over);
                (ClientGameState::TicTacToe(a), b)
            },
            Some(ClientGameState::Connect4(st)) => {
                let (a, b) = c4_solo_step(*st, me, col, difficulty, self.game_over);
                (ClientGameState::Connect4(a), b)
            },
            _ => {
                return;
            },
        };
        self.game_state = Some(gs1);
        self.game_over = go1;
    }
}

/// The bot's reply in Checkers gives `s1` from `s0`: a path the engine
/// accepts for the side to move, played; or no move when it has none to give.
pub open spec fn checkers_replied(s0: CheckersState, played: bool, s1: CheckersState) -> bool {
    &&& !played ==> s1 == s0
    &&& played ==> exists|path: Seq<Position>|
        checkers_rejection(s0, s0.players[s0.current_turn as int], path) is None && #[trigger] checkers::applied(
            s0,
            path,
            s1,
        )
}

/// The bot's reply in Chess (see `checkers_replied`).
pub open spec fn chess_replied(s0: ChessState, played: bool, s1: ChessState) -> bool {
    &&& !played ==> s1 == s0
    &&& played ==> exists|m: ChessMove|
        chess::rejection_of(&s0, chess::turn_side(s0.current_turn as int), m) is None && #[trigger] chess::applied(
            &s0,
            chess::turn_side(s0.current_turn as int),
            m,
            &s1,
        )
}

/// Plays a checkers path the engine has accepted.
fn checkers_apply_accepted(s: &mut CheckersState, player: PlayerId, mv: &CheckersMove)
    requires
        old(s).wf(),
        checkers_rejection(*old(s), player, mv.path@) is None,
        old(s).move_count < u32::MAX,
        old(s).plies_since_progress < u32::MAX,
    ensures
        final(s).wf(),
        checkers::applied(*old(s), mv.path@, *final(s)),
{
    proof {
        checkers::lemma_squares_ok(mv.path@, mv.path@.len());
    }
    Checkers::apply_move(s, player, mv);
}

/// The bot answers in Checkers.
fn checkers_bot_reply(s: &mut CheckersState, difficulty: Difficulty) -> (played: bool)
    requires
        old(s).wf(),
    ensures
        final(s).wf(),
        checkers_replied(*old(s), played, *final(s)),
        played ==> old(s).move_count < u32::MAX - 8 && old(s).plies_since_progress < u32::MAX - 8
            && checkers::legal_paths(*old(s)).len() > 0,
        !played && old(s).move_count < u32::MAX - 8 && old(s).plies_since_progress < u32::MAX - 8
            && checkers::legal_paths(*old(s)).len() > 0 ==> exists|p: Seq<Position>|
            checkers::legal_paths(*old(s)).contains(p) && #[trigger] checkers_rejection(
                *old(s),
                old(s).players[old(s).current_turn as int],
                p,
            ) is Some,
{
    if s.move_count >= u32::MAX - 8 || s.plies_since_progress >= u32::MAX - 8 {
        return false;
    }
    let moves = checkers::legal_moves(s);
    assert(paths_of(moves@).len() == moves@.len());
    if moves.len() == 0 {
        return false;
    }
    let bm = checkers::bot_move(s, difficulty);
    let bot = Checkers::current_player(s);
    if Checkers::validate_move(s, bot, &bm).is_err() {
        return false;
    }
    let ghost s0 = *s;
    checkers_apply_accepted(s, bot, &bm);
    assert(checkers::applied(s0, bm.path@, *s));
    true
}

/// Plays a chess move the engine has accepted.
fn chess_apply_accepted(s: &mut ChessState, player: PlayerId, mv: &ChessMove)
    requires
        old(s).wf(),
        old(s).players[old(s).current_turn as int] == player,
        chess::rejection_of(old(s), chess::turn_side(old(s).current_turn as int), *mv) is None,
        old(s).move_count < u32::MAX,
        old(s).halfmove_clock < u32::MAX,
    ensures
        final(s).wf(),
        chess::applied(old(s), chess::turn_side(old(s).current_turn as int), *mv, final(s)),
{
    Chess::apply_move(s, player, mv);
}

/// The bot answers in Chess.
fn chess_bot_reply(s: &mut ChessState, difficulty: Difficulty) -> (played: bool)
    requires
        old(s).wf(),
    ensures
        final(s).wf(),
        chess_replied(*old(s), played, *final(s)),
        played == (old(s).move_count < u32::MAX - 6 && old(s).halfmove_clock < u32::MAX - 6
            && chess::legal_moves_of(old(s)).len() > 0),
{
    if s.move_count >= u32::MAX - 6 || s.halfmove_clock >= u32::MAX - 6 {
        return false;
    }
    let bm = match chess::bot_move(s, difficulty) {
        Some(m) => m,
        None => {
            return false;
        },
    };
    let bot = Chess::current_player(s);
    proof {
        chess::law_validate_iff_legal(s, bm);
    }
    if Chess::validate_move(s, bot, &bm).is_err() {
        return false;
    }
    let ghost s0 = *s;
    chess_apply_accepted(s, bot, &bm);
    assert(chess::applied(&s0, chess::turn_side(s0.current_turn as int), bm, s));
    true
}

/// The games that can be played solo.
pub open spec fn solo_playable(g: GameType) -> bool {
    g == GameType::TicTacToe || g == GameType::Connect4 || g == GameType::Checkers || g == GameType::Chess
        || g == GameType::Snake
}

/// A Tic-Tac-Toe game that has not started: empty board, X to move.
pub open spec fn ttt_fresh(s: TicTacToeState, players: [PlayerId; 2]) -> bool {
    &&& s.players == players
    &&& s.move_count == 0
    &&& s.current_turn == 0
    &&& forall|r: int, c: int| 0 <= r < 3 && 0 <= c < 3 ==> #[trigger] tgrid(s.board)[r][c] == tictactoe::Cell::Empty
}

/// A Connect 4 game that has not started: empty board, Red to move.
pub open spec fn c4_fresh(s: Connect4State, players: [PlayerId; 2]) -> bool {
    &&& s.players == players
    &&& s.move_count == 0
    &&& s.current_turn == 0
    &&& forall|r: int, c: int| 0 <= r < 6 && 0 <= c < 7 ==> #[trigger] fgrid(s.board)[r][c] == connect4::Cell::Empty
}

/// A Checkers game that has not started: the starting position, the first
/// player to move.
pub open spec fn checkers_fresh(s: CheckersState, players: [PlayerId; 2]) -> bool {
    &&& s.players == players
    &&& s.move_count == 0
    &&& s.current_turn == 0
    &&& s.plies_since_progress == 0
    &&& forall|r: int, c: int| checkers::on8(r, c) ==> #[trigger] checkers::cgrid(s.board)[r][c] == checkers::start_square(r, c)
}

/// A Chess game that has not started: the starting position, White to move,
/// every castling right, no en-passant target, and the start recorded.
pub open spec fn chess_fresh(s: ChessState, players: [PlayerId; 2]) -> bool {
    &&& s.players == players
    &&& s.move_count == 0
    &&& s.current_turn == 0
    &&& s.halfmove_clock == 0
    &&& forall|r: int, c: int| 0 <= r < 8 && 0 <= c < 8 ==> #[trigger] s.board[r][c] == chess::start_square(r, c)
    &&& s.castle_rights == (chess::CastleRights {
        white_kingside: true,
        white_queenside: true,
        black_kingside: true,
        black_queenside: true,
    })
    &&& s.en_passant_target.is_none()
    &&& s.position_history@ == seq![chess::hash_of(chess::grid(s.board), 0, s.castle_rights, None)]
}

/// How a solo game opens: the selected game with us as the first player when
/// we open (at index 1 otherwise). When we open, the game has not started.
/// When the bot opens, it always has a move in the unstarted game, exactly
/// that reply has been played, and the game is not over after it.
pub open spec fn solo_opening(g: GameType, me: PlayerId, first: bool, gs: Option<ClientGameState>, go: Option<GameOutcome>) -> bool {
    let mine: int = if first {
        0
    } else {
        1
    };
    &&& first ==> go is None
    &&& match gs {
        Some(ClientGameState::TicTacToe(s)) => g == GameType::TicTacToe && s.players[mine] == me && if first {
            ttt_fresh(s, s.players)
        } else {
            &&& s.move_count == 1
            &&& go is None
            &&& exists|s0: TicTacToeState| ttt_fresh(s0, s.players) && #[trigger] ttt_replied(s0, true, s)
        },
        Some(ClientGameState::Connect4(s)) => g == GameType::Connect4 && s.players[mine] == me && if first {
            c4_fresh(s, s.players)
        } else {
            &&& s.move_count == 1
            &&& go is None
            &&& exists|s0: Connect4State| c4_fresh(s0, s.players) && #[trigger] c4_replied(s0, true, s)
        },
        Some(ClientGameState::Checkers(s)) => g == GameType::Checkers && s.players[mine] == me && if first {
            checkers_fresh(s, s.players)
        } else {
            &&& go is None
            &&& exists|s0: CheckersState| checkers_fresh(s0, s.players) && #[trigger] checkers_replied(s0, true, s)
        },
        Some(ClientGameState::Chess(s)) => g == GameType::Chess && s.players[mine] == me && if first {
            chess_fresh(s, s.players)
        } else {
            &&& go is None
            &&& exists|s0: ChessState| chess_fresh(s0, s.players) && #[trigger] chess_replied(s0, true, s)
        },
        Some(ClientGameState::Snake(s)) => g == GameType::Snake && s.snakes@.len() == 2 && s.snakes@[mine].player_id
            == me && go is None,
        None => false,
    }
}

impl App {
    /// Starts a local game of the selected type against the bot at
    /// `difficulty`. We open the first solo game; after that the opener
    /// alternates. When the bot opens, its first move is played at once.
    #[verifier::spinoff_prover]
    #[verifier::rlimit(40)]
    pub fn start_solo_game(&mut self, difficulty: Difficulty)
        requires
            old(self).wf(),
        ensures
            final(self).wf(),
            solo_start_outcome(*old(self), *final(self), difficulty),
    {
        let me = match self.my_player_id {
            Some(id) => id,
            None => {
                let id = PlayerId::new();
                self.my_player_id = Some(id);
                id
            },
        };
        let bot = PlayerId::new();
        let first = match self.solo_player_went_first {
            None => true,
            Some(w) => !w,
        };
        self.solo_player_went_first = Some(first);
        let players: [PlayerId; 2] = if first {
            [me, bot]
        } else {
            [bot, me]
        };
        let settings = GameSettings::default();
        self.snake_pending_direction = None;
        self.snake_last_sent_direction = None;
        self.snake_bot_player_id = None;
        self.snake_bot_difficulty = None;
        self.solo_snake_last_tick = None;
        self.snake_last_applied_tick = None;
        let gt = self.selected_game_type;
        let mut go: Option<GameOutcome> = None;
        let state = match gt {
            GameType::TicTacToe => {
                let mut st = TicTacToe::initial_state(&players, &settings);
                if !first {
                    let ghost s0 = st;
                    proof {
                        tictactoe::lemma_best_cell_on_empty_board(st);
                        assert(tgrid(st.board)[0][0] == tictactoe::Cell::Empty);
                        assert(empties(tgrid(st.board)) == 9) by {
                            assert(forall|r: int, c: int| 0 <= r < 3 && 0 <= c < 3 ==> #[trigger] tictactoe::empty_at(tgrid(st.board), r, c) == 1);
                        }
                    }
                    let played = ttt_bot_reply(&mut st, difficulty);
                    assert(played);
                    proof {
                        let bm = choose|bm: TicTacToeMove|
                            ttt_rejection(s0, s0.players[s0.current_turn as int], bm) is None && #[trigger] ttt_played(s0, bm, st);
                        tictactoe::lemma_tgrid_shaped(s0.board);
                        tictactoe::lemma_one_mark_undecided(tgrid(s0.board), bm.row as int, bm.col as int, tictactoe::mark(0), st.players);
                    }
                    go = TicTacToe::is_terminal(&st);
                }
                ClientGameState::TicTacToe(st)
            },
            GameType::Connect4 => {
                let mut st = Connect4::initial_state(&players, &settings);
                if !first {
                    proof {
                        connect4::lemma_best_column_on_empty_board(st);
                        assert(fgrid(st.board)[5][0] == connect4::Cell::Empty);
                    }
                    let ghost s0 = st;
                    let played = c4_bot_reply(&mut st, difficulty);
                    assert(played);
                    proof {
                        let c = choose|c: int|
                            0 <= c < 7 && c4_rejection(s0, s0.players[s0.current_turn as int], Connect4Move { col: c as u8 }) is None
                                && #[trigger] c4_played(s0, c, st);
                        connect4::lemma_one_disc_undecided(fgrid(s0.board), c, connect4::disc(0), st.players);
                    }
                    go = Connect4::is_terminal(&st);
                }
                ClientGameState::Connect4(st)
            },
            GameType::Checkers => {
                let mut st = Checkers::initial_state(&players, &settings);
                if !first {
                    let ghost s0 = st;
                    proof {
                        checkers::lemma_cgrid_shape(st.board);
                        checkers::lemma_start_position(checkers::cgrid(st.board));
                        assert(checkers::legal_paths(st).contains(seq![checkers::at(5, 0), checkers::at(4, 1)]));
                    }
                    let played = checkers_bot_reply(&mut st, difficulty);
                    proof {
                        if !played {
                            let p = choose|p: Seq<Position>|
                                checkers::legal_paths(s0).contains(p) && #[trigger] checkers_rejection(
                                    s0,
                                    s0.players[s0.current_turn as int],
                                    p,
                                ) is Some;
                            checkers::law_steps_validate_iff_legal(s0, p);
                        }
                    }
                    assert(played);
                    proof {
                        let path = choose|path: Seq<Position>|
                            checkers_rejection(s0, s0.players[s0.current_turn as int], path) is None
                                && #[trigger] checkers::applied(s0, path, st);
                        checkers::law_steps_validate_iff_legal(s0, path);
                        checkers::lemma_start_reply(s0, path, st);
                    }
                    go = Checkers::is_terminal(&st);
                }
                ClientGameState::Checkers(st)
            },
            GameType::Chess => {
                let mut st = Chess::initial_state(&players, &settings);
                if !first {
                    proof {
                        chess::lemma_start_has_move(&st);
                    }
                    let ghost s0 = st;
                    let played = chess_bot_reply(&mut st, difficulty);
                    assert(played);
                    proof {
                        let m = choose|m: ChessMove|
                            chess::rejection_of(&s0, chess::turn_side(s0.current_turn as int), m) is None
                                && #[trigger] chess::applied(&s0, chess::turn_side(s0.current_turn as int), m, &st);
                        chess::lemma_opening_goes_on(&s0, m, &st);
                    }
                    go = Chess::is_terminal(&st);
                }
                ClientGameState::Chess(st)
            },
            GameType::Snake => {
                let snake_settings = GameSettings { seed: Some(random_u64()), ..settings };
                self.snake_bot_player_id = Some(bot);
                self.snake_bot_difficulty = Some(difficulty);
                self.solo_snake_last_tick = Some(instant_now());
                let st = SnakeEngine::initial_state(&players, &snake_settings);
                self.snake_last_applied_tick = Some(st.tick);
                ClientGameState::Snake(st)
            },
            _ => {
                return;
            },
        };
        self.game_mode = GameMode::Solo { difficulty };
        self.game_state = Some(state);
        self.game_over = go;
        let (r, c) = start_cursor_of(gt);
        self.cursor_row = r;
        self.cursor_col = c;
        self.checkers_input.reset();
        self.chess_input.reset();
        self.status_message = None;
        self.screen = Screen::InGame;
        assert(self.solo_player_went_first == Some(first));
        assert(solo_opening(gt, me, first, self.game_state, self.game_over));
    }

    /// Starts the next solo game at the same difficulty (nothing outside solo
    /// play).
    pub fn rematch_solo(&mut self)
        requires
            old(self).wf(),
        ensures
            final(self).wf(),
            old(self).game_mode == GameMode::Online ==> *final(self) == *old(self),
            old(self).game_mode matches GameMode::Solo { difficulty } ==> solo_start_outcome(
                *old(self),
                *final(self),
                difficulty,
            ),
    {
        match self.game_mode {
            GameMode::Solo { difficulty } => self.start_solo_game(difficulty),
            GameMode::Online => {},
        }
    }
}

/// A solo Checkers move `path` in `s0` (game over `go0`) gives `s1`, `go1`:
/// the path is played; it ends the game, or the bot replies (see
/// `checkers_replied`); the game is over when the result is decided.
#[verifier::opaque]
pub open spec fn checkers_solo(s0: CheckersState, path: Seq<Position>, go0: Option<GameOutcome>, s1: CheckersState, go1: Option<GameOutcome>) -> bool {
    exists|mid: CheckersState|
        #[trigger] checkers::applied(s0, path, mid) && match checkers_outcome(mid) {
            Some(o) => s1 == mid && go1 == Some(o),
            None => exists|played: bool|
                #[trigger] checkers_replied(mid, played, s1) && go1 == if played {
                    match checkers_outcome(s1) {
                        Some(o) => Some(o),
                        None => go0,
                    }
                } else {
                    go0
                },
        }
}

/// A solo Chess move (see `checkers_solo`).
#[verifier::opaque]
pub open spec fn chess_solo(s0: ChessState, m: ChessMove, go0: Option<GameOutcome>, s1: ChessState, go1: Option<GameOutcome>) -> bool {
    exists|mid: ChessState|
        #[trigger] chess::applied(&s0, chess::turn_side(s0.current_turn as int), m, &mid) && match chess::chess_outcome(
            &mid,
        ) {
            Some(o) => s1 == mid && go1 == Some(o),
            None => exists|played: bool|
                #[trigger] chess_replied(mid, played, s1) && go1 == if played {
                    match chess::chess_outcome(&s1) {
                        Some(o) => Some(o),
                        None => go0,
                    }
                } else {
                    go0
                },
        }
}

fn checkers_solo_step(st: CheckersState, me: PlayerId, mv: &CheckersMove, difficulty: Difficulty, go0: Option<GameOutcome>) -> (r: (
    CheckersState,
    Option<GameOutcome>,
))
    requires
        st.wf(),
        checkers_rejection(st, me, mv.path@) is None,
        st.move_count < u32::MAX,
        st.plies_since_progress < u32::MAX,
    ensures
        r.0.wf(),
        checkers_solo(st, mv.path@, go0, r.0, r.1),
{
    reveal(checkers_solo);
    let mut st = st;
    let ghost s0 = st;
    checkers_apply_accepted(&mut st, me, mv);
    let ghost mid = st;
    match Checkers::is_terminal(&st) {
        Some(o) => {
            return (st, Some(o));
        },
        None => {},
    }
    let played = checkers_bot_reply(&mut st, difficulty);
    assert(checkers_replied(mid, played, st));
    let mut go = go0;
    if played {
        match Checkers::is_terminal(&st) {
            Some(o) => {
                go = Some(o);
            },
            None => {},
        }
    }
    (st, go)
}

fn chess_solo_step(st: ChessState, me: PlayerId, mv: &ChessMove, difficulty: Difficulty, go0: Option<GameOutcome>) -> (r: (
    ChessState,
    Option<GameOutcome>,
))
    requires
        st.wf(),
        st.players[st.current_turn as int] == me,
        chess::rejection_of(&st, chess::turn_side(st.current_turn as int), *mv) is None,
        st.move_count < u32::MAX,
        st.halfmove_clock < u32::MAX,
    ensures
        r.0.wf(),
        chess_solo(st, *mv, go0, r.0, r.1),
{
    reveal(chess_solo);
    let mut st = st;
    let ghost s0 = st;
    chess_apply_accepted(&mut st, me, mv);
    let ghost mid = st;
    match Chess::is_terminal(&st) {
        Some(o) => {
            return (st, Some(o));
        },
        None => {},
    }
    let played = chess_bot_reply(&mut st, difficulty);
    assert(chess_replied(mid, played, st));
    let mut go = go0;
    if played {
        match Chess::is_terminal(&st) {
            Some(o) => {
                go = Some(o);
            },
            None => {},
        }
    }
    (st, go)
}

/// Whether `path` is accepted in the shown Checkers game for us (and, solo,
/// can still be counted).
pub open spec fn checkers_submittable(app: App, path: Seq<Position>) -> bool {
    &&& app.game_state matches Some(ClientGameState::Checkers(s))
    &&& app.my_player_id matches Some(me)
    &&& checkers_rejection(s, me, path) is None
    &&& app.game_mode matches GameMode::Solo { .. } ==> s.move_count < u32::MAX && s.plies_since_progress < u32::MAX
}

impl App {
    /// Submits a Checkers move for us: refused (`false`, nothing changes)
    /// unless the engine accepts it. Solo, it is played and the bot answers
    /// (see `checkers_solo`); online, the caller sends it. Either way the
    /// input is reset.
    pub fn submit_checkers_move(&mut self, mv: CheckersMove) -> (ok: bool)
        requires
            old(self).wf(),
        ensures
            final(self).wf(),
            ok == checkers_submittable(*old(self), mv.path@),
            !ok ==> *final(self) == *old(self),
            ok ==> checkers_input_rest(final(self).checkers_input),
            ok && old(self).game_mode == GameMode::Online ==> *final(self) == (App {
                checkers_input: final(self).checkers_input,
                ..*old(self)
            }),
            ok && old(self).game_mode != GameMode::Online ==> {
                &&& *final(self) == (App {
                    checkers_input: final(self).checkers_input,
                    game_state: final(self).game_state,
                    game_over: final(self).game_over,
                    ..*old(self)
                })
                &&& final(self).game_state matches Some(ClientGameState::Checkers(s1)) && old(self).game_state matches Some(
                    ClientGameState::Checkers(s0),
                ) && checkers_solo(s0, mv.path@, old(self).game_over, s1, final(self).game_over)
            },
    {
        let st = match &self.game_state {
            Some(ClientGameState::Checkers(s)) => *s,
            _ => {
                return false;
            },
        };
        let me = match self.my_player_id {
            Some(id) => id,
            None => {
                return false;
            },
        };
        if Checkers::validate_move(&st, me, &mv).is_err() {
            return false;
        }
        match self.game_mode {
            GameMode::Solo { difficulty } => {
                if st.move_count == u32::MAX || st.plies_since_progress == u32::MAX {
                    return false;
                }
                let (s1, go1) = checkers_solo_step(st, me, &mv, difficulty, self.game_over);
                self.game_state = Some(ClientGameState::Checkers(s1));
                self.game_over = go1;
                self.checkers_input.reset();
                true
            },
            GameMode::Online => {
                self.checkers_input.reset();
                true
            },
        }
    }

    /// Submits a Chess move for us: refused (`false`, nothing changes) unless
    /// solo and the engine accepts it, then played with the bot's answer (see
    /// `chess_solo`); online it is always passed on for sending. The input is
    /// reset when accepted.
    pub fn submit_chess_move(&mut self, mv: ChessMove) -> (ok: bool)
        requires
            old(self).wf(),
        ensures
            final(self).wf(),
            chess_submit_outcome(*old(self), *final(self), mv, ok),
    {
        match &self.game_state {
            Some(ClientGameState::Chess(_)) => {},
            _ => {
                return false;
            },
        }
        let me = match self.my_player_id {
            Some(id) => id,
            None => {
                return false;
            },
        };
        match self.game_mode {
            GameMode::Solo { difficulty } => {
                let gs = self.game_state.take();
                let st = match gs {
                    Some(ClientGameState::Chess(s)) => s,
                    _ => {
                        assert(false);
                        return false;
                    },
                };
                if Chess::validate_move(&st, me, &mv).is_err() || st.move_count == u32::MAX || st.halfmove_clock
                    == u32::MAX {
                    self.game_state = Some(ClientGameState::Chess(st));
                    return false;
                }
                let (s1, go1) = chess_solo_step(st, me, &mv, difficulty, self.game_over);
                self.game_state = Some(ClientGameState::Chess(s1));
                self.game_over = go1;
                self.chess_input.reset();
                true
            },
            GameMode::Online => {
                self.chess_input.reset();
                true
            },
        }
    }
}

/// Whether the engine accepts `path` from `me` in `s`.
#[verifier::opaque]
pub open spec fn path_accepted(s: CheckersState, me: PlayerId, path: Seq<Position>) -> bool {
    checkers_rejection(s, me, path) is None
}

fn checkers_accepts(s: &CheckersState, me: PlayerId, mv: &CheckersMove) -> (ok: bool)
    requires
        s.wf(),
    ensures
        ok == path_accepted(*s, me, mv.path@),
{
    proof {
        reveal(path_accepted);
    }
    Checkers::validate_move(s, me, mv).is_ok()
}

/// Whether some legal path of `s` is longer than `t` and starts with it.
#[verifier::opaque]
pub open spec fn extends_legal(s: CheckersState, t: Seq<Position>) -> bool {
    exists|i: int|
        0 <= i < checkers::legal_paths(s).len() && #[trigger] checkers::legal_paths(s)[i].len() > t.len()
            && checkers::legal_paths(s)[i].subrange(0, t.len() as int) == t
}

fn copy_path(v: &Vec<Position>) -> (r: Vec<Position>)
    ensures
        r@ == v@,
{
    let mut r: Vec<Position> = Vec::new();
    let mut i: usize = 0;
    while i < v.len()
        invariant
            i <= v@.len(),
            r@ == v@.subrange(0, i as int),
        decreases v@.len() - i,
    {
        r.push(v[i]);
        assert(v@.subrange(0, i + 1) =~= v@.subrange(0, i as int).push(v@[i as int]));
        i += 1;
    }
    assert(v@.subrange(0, i as int) =~= v@);
    r
}

/// Whether `p` is longer than `t` and starts with it.
fn starts_with_path(p: &Vec<Position>, t: &Vec<Position>) -> (r: bool)
    ensures
        r == (p@.len() > t@.len() && p@.subrange(0, t@.len() as int) == t@),
{
    if p.len() <= t.len() {
        return false;
    }
    let mut i: usize = 0;
    while i < t.len()
        invariant
            t@.len() < p@.len(),
            i <= t@.len(),
            forall|j: int| 0 <= j < i ==> p@[j] == t@[j],
        decreases t@.len() - i,
    {
        if p[i] != t[i] {
            assert(p@.subrange(0, t@.len() as int)[i as int] != t@[i as int]);
            return false;
        }
        i += 1;
    }
    assert(p@.subrange(0, t@.len() as int) =~= t@);
    true
}

/// Whether some legal move of `s` strictly extends `t`.
fn extends_a_legal_move(s: &CheckersState, t: &Vec<Position>) -> (r: bool)
    requires
        s.wf(),
    ensures
        r == extends_legal(*s, t@),
{
    proof {
        reveal(extends_legal);
    }
    let moves = checkers::legal_moves(s);
    let ghost lp = checkers::legal_paths(*s);
    assert(paths_of(moves@) == lp);
    assert(lp.len() == moves@.len());
    let mut i: usize = 0;
    while i < moves.len()
        invariant
            lp == paths_of(moves@),
            lp == checkers::legal_paths(*s),
            lp.len() == moves@.len(),
            i <= moves@.len(),
            forall|j: int| 0 <= j < i ==> !(#[trigger] lp[j].len() > t@.len() && lp[j].subrange(0, t@.len() as int) == t@),
        decreases moves@.len() - i,
    {
        assert(lp[i as int] == moves@[i as int].path@);
        if starts_with_path(&moves[i].path, t) {
            proof {
                reveal(extends_legal);
                assert(checkers::legal_paths(*s)[i as int].len() > t@.len());
            }
            return true;
        }
        i += 1;
    }
    false
}

impl App {
    /// `Enter` in a Checkers game at the cursor, when it is our turn: picks
    /// one of our pieces; then extends the path, submitting it once the
    /// engine accepts it (solo it is played, see `submit_checkers_move`;
    /// online the input is reset and the move returned for sending), keeping
    /// a partial jump chain while some legal move continues it, and otherwise
    /// dropping the selection with a message. Returns the completed move.
    pub fn checkers_confirm(&mut self) -> (r: Option<CheckersMove>)
        requires
            old(self).wf(),
            old(self).game_state matches Some(ClientGameState::Checkers(_)) ==> old(self).cursor_row < 8
                && old(self).cursor_col < 8,
        ensures
            final(self).wf(),
            confirm_outcome(*old(self), *final(self), r),
    {
        self.status_message = None;
        let st = match &self.game_state {
            Some(ClientGameState::Checkers(s)) => *s,
            _ => {
                return None;
            },
        };
        let me = match self.my_player_id {
            Some(id) => id,
            None => {
                return None;
            },
        };
        if Checkers::current_player(&st) != me {
            return None;
        }
        let cursor = Position { row: self.cursor_row, col: self.cursor_col };
        match self.checkers_input.stage {
            CheckersInputStage::Idle => {
                self.confirm_pick(st, cursor);
                None
            },
            _ => self.confirm_target(st, me, cursor),
        }
    }

    fn confirm_pick(&mut self, st: CheckersState, cursor: Position)
        requires
            old(self).wf(),
            old(self).game_state == Some(ClientGameState::Checkers(st)),
            st.wf(),
            cursor.row < 8 && cursor.col < 8,
        ensures
            final(self).wf(),
            pick_outcome(*old(self), *final(self), st, cursor),
    {
        if !App::checkers_is_dark_square(cursor.row, cursor.col) {
            return;
        }
        assert(checkers::cgrid(st.board)[cursor.row as int][cursor.col as int] == st.board[cursor.row as int][cursor.col as int]);
        let side = if st.current_turn == 0 {
            Side::Black
        } else {
            Side::Red
        };
        let sq = st.board[cursor.row as usize][cursor.col as usize];
        let own = match sq.side() {
            Some(x) => x == side,
            None => false,
        };
        if !own {
            let m = self.translator.get("checkers.error_own_piece");
            self.status_message = Some(m.to_owned());
            return;
        }
        self.checkers_input.stage = CheckersInputStage::TargetSelect;
        self.checkers_input.origin = Some(cursor);
        let mut path: Vec<Position> = Vec::new();
        path.push(cursor);
        assert(path@ =~= seq![cursor]);
        self.checkers_input.partial_path = path;
    }

    #[verifier::spinoff_prover]
    fn confirm_submit(&mut self, st: CheckersState, mv: CheckersMove)
        requires
            old(self).wf(),
            old(self).game_state == Some(ClientGameState::Checkers(st)),
            old(self).my_player_id matches Some(me) && path_accepted(st, me, mv.path@),
        ensures
            final(self).wf(),
            submit_outcome(*old(self), *final(self), st, mv.path@),
    {
        proof {
            reveal(path_accepted);
        }
        match self.game_mode {
            GameMode::Solo { .. } => {
                let ghost a0 = *self;
                let ok = self.submit_checkers_move(mv);
                assert(*self == (App {
                    checkers_input: self.checkers_input,
                    game_state: self.game_state,
                    game_over: self.game_over,
                    ..a0
                }));
                self.checkers_input.reset();
            },
            GameMode::Online => {
                self.checkers_input.reset();
            },
        }
    }

    #[verifier::spinoff_prover]
    fn confirm_target(&mut self, st: CheckersState, me: PlayerId, cursor: Position) -> (r: Option<CheckersMove>)
        requires
            old(self).wf(),
            old(self).game_state == Some(ClientGameState::Checkers(st)),
            old(self).my_player_id == Some(me),
            st.wf(),
        ensures
            final(self).wf(),
            target_outcome(*old(self), *final(self), st, me, cursor, r),
    {
        let n = self.checkers_input.partial_path.len();
        if n > 0 && self.checkers_input.partial_path[n - 1] == cursor {
            return None;
        }
        let mut tentative = copy_path(&self.checkers_input.partial_path);
        tentative.push(cursor);
        let candidate = CheckersMove { path: copy_path(&tentative) };
        if checkers_accepts(&st, me, &candidate) {
            let result = CheckersMove { path: tentative };
            self.confirm_submit(st, candidate);
            return Some(result);
        }
        if extends_a_legal_move(&st, &tentative) {
            self.confirm_chain(tentative);
        } else {
            self.reject_target();
        }
        None
    }

    fn confirm_chain(&mut self, path: Vec<Position>)
        requires
            old(self).wf(),
        ensures
            final(self).wf(),
            chain_outcome(*old(self), *final(self), path@),
    {
        self.checkers_input.stage = CheckersInputStage::Chaining;
        self.checkers_input.partial_path = path;
    }

    fn reject_target(&mut self)
        requires
            old(self).wf(),
        ensures
            final(self).wf(),
            reject_outcome(*old(self), *final(self)),
    {
        let m = self.translator.get("checkers.error_illegal_target");
        self.status_message = Some(m.to_owned());
        self.checkers_input.reset();
    }
}

/// Picking a piece at `cur` (status already cleared in `a0`): off the dark
/// squares nothing happens; a square without our piece gets a message;
/// otherwise the piece is selected.
pub open spec fn pick_outcome(a0: App, a1: App, s: CheckersState, cur: Position) -> bool {
    if !checkers::dark(cur) {
        a1 == a0
    } else if checkers::side_of(checkers::cgrid(s.board)[cur.row as int][cur.col as int]) != Some(
        checkers::turn_side(s.current_turn as int),
    ) {
        &&& a1 == (App { status_message: a1.status_message, ..a0 })
        &&& a1.status_message matches Some(m) && m@ == translated(a0.translator, "checkers.error_own_piece"@)
    } else {
        &&& a1.checkers_input.stage == CheckersInputStage::TargetSelect
        &&& a1.checkers_input.origin == Some(cur)
        &&& a1.checkers_input.partial_path@ == seq![cur]
        &&& a1 == (App { checkers_input: a1.checkers_input, ..a0 })
    }
}

/// Extending the selection to `cur` (status already cleared in `a0`):
/// repeating the last square does nothing; a path the engine accepts is
/// returned and (solo) played, with the input reset; a path some legal move
/// continues becomes a jump chain; anything else drops the selection with a
/// message.
pub open spec fn target_outcome(a0: App, a1: App, s: CheckersState, me: PlayerId, cur: Position, r: Option<CheckersMove>) -> bool {
    let t = a0.checkers_input.partial_path@.push(cur);
    if a0.checkers_input.partial_path@.len() > 0 && a0.checkers_input.partial_path@.last() == cur {
        r is None && a1 == a0
    } else if path_accepted(s, me, t) {
        r matches Some(m) && m.path@ == t && submit_outcome(a0, a1, s, t)
    } else if extends_legal(s, t) {
        r is None && chain_outcome(a0, a1, t)
    } else {
        r is None && reject_outcome(a0, a1)
    }
}

/// Submitting the completed path `t`: the input is reset; online nothing
/// else changes; solo only the game and its outcome change besides, the move
/// being played (`checkers_solo`) when the move counters have room.
pub open spec fn submit_outcome(a0: App, a1: App, s: CheckersState, t: Seq<Position>) -> bool {
    &&& checkers_input_rest(a1.checkers_input)
    &&& a1 == (App { checkers_input: a1.checkers_input, game_state: a1.game_state, game_over: a1.game_over, ..a0 })
    &&& a0.game_mode == GameMode::Online ==> a1 == (App { checkers_input: a1.checkers_input, ..a0 })
    &&& a0.game_mode != GameMode::Online && s.move_count < u32::MAX && s.plies_since_progress < u32::MAX
        ==> (a1.game_state matches Some(ClientGameState::Checkers(s1)) && checkers_solo(
        s,
        t,
        a0.game_over,
        s1,
        a1.game_over,
    ))
}

/// Keeping `t` as a partial jump chain.
pub open spec fn chain_outcome(a0: App, a1: App, t: Seq<Position>) -> bool {
    &&& a1.checkers_input.stage == CheckersInputStage::Chaining
    &&& a1.checkers_input.partial_path@ == t
    &&& a1.checkers_input.origin == a0.checkers_input.origin
    &&& a1 == (App { checkers_input: a1.checkers_input, ..a0 })
}

/// Dropping the selection with the illegal-target message.
pub open spec fn reject_outcome(a0: App, a1: App) -> bool {
    &&& checkers_input_rest(a1.checkers_input)
    &&& a1.status_message matches Some(m) && m@ == translated(a0.translator, "checkers.error_illegal_target"@)
    &&& a1 == (App { checkers_input: a1.checkers_input, status_message: a1.status_message, ..a0 })
}

/// What `Enter` does in a Checkers game: with the status cleared, nothing
/// unless it is our turn; then a pick (`pick_outcome`) when nothing is
/// selected, else an extension (`target_outcome`).
pub open spec fn confirm_outcome(a0: App, a1: App, r: Option<CheckersMove>) -> bool {
    let cleared = App { status_message: None, ..a0 };
    let cur = Position { row: a0.cursor_row, col: a0.cursor_col };
    match (a0.game_state, a0.my_player_id) {
        (Some(ClientGameState::Checkers(s)), Some(me)) => if s.players[s.current_turn as int] != me {
            r is None && a1 == cleared
        } else if a0.checkers_input.stage == CheckersInputStage::Idle {
            r is None && pick_outcome(cleared, a1, s, cur)
        } else {
            target_outcome(cleared, a1, s, me, cur, r)
        },
        _ => r is None && a1 == cleared,
    }
}

/// One engine tick of a solo game on `solo_inputs`, with the bot's move.
fn solo_snake_step(
    state: SnakeState,
    me: PlayerId,
    pending: Option<Direction>,
    bot: PlayerId,
    difficulty: Difficulty,
) -> (r: SnakeState)
    requires
        snake::steppable(state),
    ensures
        solo_stepped(state, me, pending, bot, r),
{
    proof {
        reveal(snake::steppable);
    }
    let mut state = state;
    broadcast use vstd::std_specs::hash::group_hash_axioms;

    let mut inputs: std::collections::HashMap<u128, SnakeInput> = std::collections::HashMap::new();
    match pending {
        Some(d) => {
            inputs.insert(me.0, SnakeInput { direction: d });
        },
        None => {},
    }
    proof {
        snake::lemma_snake_of_member(state.snakes@, bot);
    }
    let b = snake::bot_move(&state, bot, difficulty);
    inputs.insert(bot.0, b);
    assert(inputs@ == solo_inputs(me, pending, bot, b));
    let ghost s0 = state;
    let _ = SnakeEngine::tick(&mut state, &inputs);
    assert(snake_stepped(s0, inputs@, state)) by {
        reveal(snake_stepped);
    }
    assert(solo_stepped(s0, me, pending, bot, state));
    state
}

/// What a Snake tick from the server does: on a Snake game at the tick
/// before it, the game becomes the replayed state, the tick is recorded as
/// applied, and an outcome in the delta ends the game; otherwise nothing
/// changes.
pub open spec fn delta_outcome(a0: App, a1: App, d: SnakeDelta) -> bool {
    match a0.game_state {
        Some(ClientGameState::Snake(s0)) => if d.tick == s0.tick + 1 {
            &&& a1.game_state matches Some(ClientGameState::Snake(s1)) && snake_delta::replayed(s0, d, s1)
            &&& a1 == (App {
                game_state: a1.game_state,
                snake_last_applied_tick: Some(d.tick),
                game_over: match d.game_over {
                    Some(o) => Some(o),
                    None => a0.game_over,
                },
                ..a0
            })
        } else {
            a1 == a0
        },
        _ => a1 == a0,
    }
}

/// An unfinished solo Snake game is on.
pub open spec fn solo_snake_running(a: App) -> bool {
    &&& a.game_mode is Solo
    &&& a.game_over.is_none()
    &&& a.game_state matches Some(ClientGameState::Snake(_))
}

/// The inputs of a solo Snake step: ours (when a direction is queued), then
/// the bot's.
pub open spec fn solo_inputs(me: PlayerId, pending: Option<Direction>, bot: PlayerId, b: SnakeInput) -> Map<
    u128,
    SnakeInput,
> {
    match pending {
        Some(d) => Map::empty().insert(me.0, SnakeInput { direction: d }).insert(bot.0, b),
        None => Map::empty().insert(bot.0, b),
    }
}

/// `s1` is `s0` after one engine tick on `inputs`.
#[verifier::opaque]
pub open spec fn snake_stepped(s0: SnakeState, inputs: Map<u128, SnakeInput>, s1: SnakeState) -> bool {
    &&& s1.tick == s0.tick + 1
    &&& s1.arena_w == s0.arena_w
    &&& s1.arena_h == s0.arena_h
    &&& s1.snakes@.len() == s0.snakes@.len()
    &&& forall|i: int| 0 <= i < s0.snakes@.len() ==> snake::snake_after(s0, inputs, i, #[trigger] s1.snakes@[i])
    &&& s0.game_over.is_none() ==> s1.game_over == snake::terminal_of(s1.snakes@)
    &&& s0.game_over.is_some() ==> s1.game_over == s0.game_over
}

/// `s1` is `s0` after one engine tick on `solo_inputs`, for some move of
/// the bot.
pub open spec fn solo_stepped(s0: SnakeState, me: PlayerId, pending: Option<Direction>, bot: PlayerId, s1: SnakeState) -> bool {
    exists|b: SnakeInput| snake_stepped(s0, #[trigger] solo_inputs(me, pending, bot, b), s1)
}

/// What a due solo Snake step does to the game: with all players known and
/// a state the engine can step, the state advances on `solo_inputs` for some
/// bot move, and the game is over when the new state says so; otherwise the
/// game is left as it was.
pub open spec fn snake_tick_outcome(a0: App, a1: App) -> bool {
    match (a0.game_state, a0.my_player_id, a0.snake_bot_player_id, a0.snake_bot_difficulty) {
        (Some(ClientGameState::Snake(s0)), Some(me), Some(bot), Some(_)) => if snake::steppable(s0) {
            &&& a1.game_state matches Some(ClientGameState::Snake(s1)) && solo_stepped(
                s0,
                me,
                a0.snake_pending_direction,
                bot,
                s1,
            ) && a1.game_over == (if s1.game_over.is_some() {
                s1.game_over
            } else {
                a0.game_over
            })
        } else {
            a1.game_state == a0.game_state && a1.game_over == a0.game_over
        },
        _ => a1.game_state == a0.game_state && a1.game_over == a0.game_over,
    }
}

/// What a solo move at (`row`, `col`) does: only the game and its outcome
/// change, as `ttt_solo` or `c4_solo` say for the game in progress.
pub open spec fn solo_move_outcome(a0: App, a1: App, row: u8, col: u8) -> bool {
    &&& a1 == (App { game_state: a1.game_state, game_over: a1.game_over, ..a0 })
    &&& match (a0.game_mode, a0.my_player_id, a0.game_state) {
        (GameMode::Solo { difficulty }, Some(me), Some(ClientGameState::TicTacToe(s0))) => a1.game_state
            matches Some(ClientGameState::TicTacToe(s1)) && ttt_solo(
            s0,
            me,
            TicTacToeMove { row, col },
            a0.game_over,
            s1,
            a1.game_over,
        ),
        (GameMode::Solo { difficulty }, Some(me), Some(ClientGameState::Connect4(s0))) => a1.game_state
            matches Some(ClientGameState::Connect4(s1)) && c4_solo(s0, me, col, a0.game_over, s1, a1.game_over),
        _ => a1.game_state == a0.game_state && a1.game_over == a0.game_over,
    }
}

/// What starting a solo game at `difficulty` does: the first move
/// alternates, we get a player id, and for a game that can be played solo
/// the game shows its opening position (`solo_opening`); otherwise the game,
/// mode and screen stay.
pub open spec fn solo_start_outcome(a0: App, a1: App, difficulty: Difficulty) -> bool {
    &&& a1.solo_player_went_first == Some(
        match a0.solo_player_went_first {
            None => true,
            Some(w) => !w,
        },
    )
    &&& a1.my_player_id is Some
    &&& a0.my_player_id is Some ==> a1.my_player_id == a0.my_player_id
    &&& solo_playable(a0.selected_game_type) ==> {
        &&& a1.game_mode == (GameMode::Solo { difficulty })
        &&& a1.screen == Screen::InGame
        &&& (a1.cursor_row, a1.cursor_col) == start_cursor(a0.selected_game_type)
        &&& checkers_input_rest(a1.checkers_input)
        &&& a1.chess_input == chess_input_rest()
        &&& a1.status_message is None
        &&& solo_opening(
            a0.selected_game_type,
            a1.my_player_id->Some_0,
            a1.solo_player_went_first->Some_0,
            a1.game_state,
            a1.game_over,
        )
    }
    &&& !solo_playable(a0.selected_game_type) ==> a1.game_state == a0.game_state && a1.game_mode == a0.game_mode
        && a1.screen == a0.screen
}

/// Whether a Chess move `mv` of ours is accepted for playing (solo: the
/// engine accepts it on our turn and the counters have room) or for sending
/// (online).
pub open spec fn chess_accepts(a0: App, mv: ChessMove) -> bool {
    a0.game_state matches Some(ClientGameState::Chess(s)) && a0.my_player_id matches Some(me) && (a0.game_mode
        != GameMode::Online ==> s.players[s.current_turn as int] == me && chess::rejection_of(
        &s,
        chess::turn_side(s.current_turn as int),
        mv,
    ) is None && s.move_count < u32::MAX && s.halfmove_clock < u32::MAX)
}

/// What submitting the Chess move `mv` does, `ok` telling whether it was
/// accepted: refused, nothing changes; accepted online, the input is reset;
/// accepted solo, the move and the bot's answer are played (`chess_solo`).
pub open spec fn chess_submit_outcome(a0: App, a1: App, mv: ChessMove, ok: bool) -> bool {
    &&& !ok ==> a1 == a0
    &&& ok ==> a1.chess_input == chess_input_rest()
    &&& ok == chess_accepts(a0, mv)
    &&& ok && a0.game_mode == GameMode::Online ==> a1 == (App { chess_input: chess_input_rest(), ..a0 })
    &&& ok && a0.game_mode != GameMode::Online ==> {
        &&& a1 == (App {
            chess_input: chess_input_rest(),
            game_state: a1.game_state,
            game_over: a1.game_over,
            ..a0
        })
        &&& a1.game_state matches Some(ClientGameState::Chess(s1)) && a0.game_state matches Some(
            ClientGameState::Chess(s0),
        ) && chess_solo(s0, mv, a0.game_over, s1, a1.game_over)
    }
}

/// Whether we may move now: in a turn-based game, whether the player to
/// move is us; in Snake, whether the game is still on.
pub open spec fn our_turn(a: App) -> bool {
    match a.game_state {
        None => false,
        Some(ClientGameState::TicTacToe(s)) => Some(s.players[s.current_turn as int]) == a.my_player_id,
        Some(ClientGameState::Connect4(s)) => Some(s.players[s.current_turn as int]) == a.my_player_id,
        Some(ClientGameState::Checkers(s)) => Some(s.players[s.current_turn as int]) == a.my_player_id,
        Some(ClientGameState::Chess(s)) => Some(s.players[s.current_turn as int]) == a.my_player_id,
        Some(ClientGameState::Snake(_)) => a.game_over.is_none(),
    }
}

/// A game state the client can work with: the player to move is one of
/// the two.
pub open spec fn client_state_wf(st: ClientGameState) -> bool {
    match st {
        ClientGameState::TicTacToe(s) => s.wf(),
        ClientGameState::Connect4(s) => s.wf(),
        ClientGameState::Checkers(s) => s.wf(),
        ClientGameState::Chess(s) => s.wf(),
        ClientGameState::Snake(_) => true,
    }
}

impl ClientGameState {
    /// Whether the state is one the client can work with (`client_state_wf`).
    pub fn is_well_formed(&self) -> (r: bool)
        ensures
            r == client_state_wf(*self),
    {
        match self {
            ClientGameState::TicTacToe(s) => s.current_turn < 2,
            ClientGameState::Connect4(s) => s.current_turn < 2,
            ClientGameState::Checkers(s) => s.current_turn < 2,
            ClientGameState::Chess(s) => s.current_turn < 2,
            ClientGameState::Snake(_) => true,
        }
    }
}

/// The state change of `App::on_auth_success`.
pub open spec fn on_auth_success_outcome(a0: App, a1: App, token: String) -> bool {
    &&& a1.password_input@.len() == 0
    &&& a1 == (App {
            auth_token: Some(token),
            authenticated: true,
            login_loading: false,
            login_error: None,
            password_input: a1.password_input,
            screen: Screen::Lobby,
            ..a0
        })
}

/// The state change of `App::on_auth_failure`.
pub open spec fn on_auth_failure_outcome(a0: App, a1: App, reason: String) -> bool {
    &&& a1 == (App { login_loading: false, login_error: Some(reason), ..a0 })
}

/// The state change of `App::update_rooms`.
pub open spec fn update_rooms_outcome(a0: App, a1: App, rooms: Vec<RoomSummary>) -> bool {
    &&& a1 == (App {
            rooms,
            selected_room: if a0.selected_room >= rooms@.len() && rooms@.len() > 0 {
                (rooms@.len() - 1) as usize
            } else {
                a0.selected_room
            },
            ..a0
        })
}

/// The state change of `App::on_room_joined`.
pub open spec fn on_room_joined_outcome(a0: App, a1: App, room_id: RoomId, players: Vec<PlayerInfo>) -> bool {
    &&& a1 == (App {
            current_room_id: Some(room_id),
            current_room_players: players,
            screen: Screen::Room,
            ..a0
        })
}

/// The state change of `App::on_room_left`.
pub open spec fn on_room_left_outcome(a0: App, a1: App) -> bool {
    &&& a1.current_room_players@.len() == 0
    &&& a1 == (App {
            current_room_id: None,
            current_room_players: a1.current_room_players,
            game_state: None,
            game_over: None,
            rematch_pending: false,
            rematch_incoming: false,
            cursor_row: 1,
            cursor_col: 1,
            screen: Screen::Lobby,
            ..a0
        })
}

/// The state change of `App::on_game_over`.
pub open spec fn on_game_over_outcome(a0: App, a1: App, outcome: GameOutcome) -> bool {
    &&& a1 == (App { game_over: Some(outcome), ..a0 })
}

/// The state change of `App::on_player_joined`.
pub open spec fn on_player_joined_outcome(a0: App, a1: App, player: PlayerInfo) -> bool {
    &&& a1.current_room_players@ == if crate::handler::ids(a0.current_room_players@).contains(player.id) {
        a0.current_room_players@
    } else {
        a0.current_room_players@.push(player)
    }
    &&& a1 == (App { current_room_players: a1.current_room_players, ..a0 })
}

/// The state change of `App::on_player_left`.
pub open spec fn on_player_left_outcome(a0: App, a1: App, player_id: PlayerId) -> bool {
    &&& a1.current_room_players@ == a0.current_room_players@.filter(|p: PlayerInfo| p.id != player_id)
    &&& a1 == (App {
            current_room_players: a1.current_room_players,
            rematch_pending: false,
            rematch_incoming: false,
            ..a0
        })
}

/// The state change of `App::on_rematch_accepted`.
pub open spec fn on_rematch_accepted_outcome(a0: App, a1: App) -> bool {
    &&& checkers_input_rest(a1.checkers_input)
    &&& a1 == (App {
            game_over: None,
            rematch_pending: false,
            rematch_incoming: false,
            cursor_row: start_cursor(a0.current_game_type).0,
            cursor_col: start_cursor(a0.current_game_type).1,
            checkers_input: a1.checkers_input,
            chess_input: chess_input_rest(),
            status_message: None,
            ..a0
        })
}

/// The state change of `App::on_rematch_declined`.
pub open spec fn on_rematch_declined_outcome(a0: App, a1: App) -> bool {
    &&& a1.current_room_players@.len() == 0
    &&& a1 == (App {
            current_room_id: None,
            current_room_players: a1.current_room_players,
            game_state: None,
            game_over: None,
            rematch_pending: false,
            rematch_incoming: false,
            cursor_row: 1,
            cursor_col: 1,
            screen: Screen::Lobby,
            ..a0
        })
}

/// The state change of `App::leave_solo_game`.
pub open spec fn leave_solo_game_outcome(a0: App, a1: App) -> bool {
    &&& checkers_input_rest(a1.checkers_input)
    &&& a1 == (App {
            game_mode: GameMode::Online,
            game_state: None,
            game_over: None,
            solo_player_went_first: None,
            checkers_input: a1.checkers_input,
            chess_input: chess_input_rest(),
            status_message: None,
            screen: if a0.authenticated {
                Screen::Lobby
            } else {
                Screen::Login
            },
            ..a0
        })
}

/// The state change of `App::on_game_state`.
pub open spec fn on_game_state_outcome(a0: App, a1: App, decoded: Option<ClientGameState>) -> bool {
    &&& a0.wf() && (decoded matches Some(st) ==> client_state_wf(st)) ==> a1.wf()
    &&& decoded is None ==> a1 == a0
    &&& decoded matches Some(st) ==> {
            &&& a1.game_state == Some(st)
            &&& a1.snake_last_applied_tick == match st {
                ClientGameState::Snake(sn) => Some(sn.tick),
                _ => a0.snake_last_applied_tick,
            }
            &&& a0.screen == Screen::Room ==> {
                &&& a1.screen == Screen::InGame
                &&& (a1.cursor_row, a1.cursor_col) == start_cursor(a0.selected_game_type)
                &&& a0.selected_game_type == GameType::Checkers ==> checkers_input_rest(a1.checkers_input)
                &&& a0.selected_game_type == GameType::Chess ==> a1.chess_input == chess_input_rest()
            }
            &&& a0.screen != Screen::Room ==> a1.screen == a0.screen && a1.cursor_row
                == a0.cursor_row && a1.cursor_col == a0.cursor_col
        }
}

} // verus!
