use vstd::prelude::*;

use crate::clock::millis_since;
use crate::messages::RoomSummary;
use crate::room::{ids_of, join_rejection, same_room_but_members, Room};
use crate::tictactoe::TicTacToeMove;
use crate::turn_based::{copy_ids, play_outcome, turn_based_supported, GameState, TurnBasedGame};
use crate::types::GameOutcome;
use crate::types::{game_type_name, random_bit, GameSettings, GameType, PlayerId, PlayerInfo, RoomId, RoomState};

verus! {

/// Empty rooms idle longer than this many seconds are removed by cleanup.
pub const EMPTY_ROOM_TIMEOUT_SECS: u64 = 60;

/// All rooms, which room each player is in, and the games being played.
#[derive(Debug)]
pub struct LobbyManager {
    pub rooms: Vec<Room>,
    pub player_rooms: Vec<(PlayerId, RoomId)>,
    pub games: Vec<(RoomId, TurnBasedGame)>,
}

/// The position of the room `id`, if any.
pub open spec fn room_index(rooms: Seq<Room>, id: RoomId) -> Option<int>
    decreases rooms.len(),
{
    if rooms.len() == 0 {
        None
    } else if rooms[0].id == id {
        Some(0)
    } else {
        match room_index(rooms.drop_first(), id) {
            Some(i) => Some(i + 1),
            None => None,
        }
    }
}

/// The room `player` is in, if any.
pub open spec fn room_of(pr: Seq<(PlayerId, RoomId)>, player: PlayerId) -> Option<RoomId>
    decreases pr.len(),
{
    if pr.len() == 0 {
        None
    } else if pr[0].0 == player {
        Some(pr[0].1)
    } else {
        room_of(pr.drop_first(), player)
    }
}

/// The position of the game of room `id`, if any.
pub open spec fn game_index(games: Seq<(RoomId, TurnBasedGame)>, id: RoomId) -> Option<int>
    decreases games.len(),
{
    if games.len() == 0 {
        None
    } else if games[0].0 == id {
        Some(0)
    } else {
        match game_index(games.drop_first(), id) {
            Some(i) => Some(i + 1),
            None => None,
        }
    }
}

pub proof fn lemma_room_index(rooms: Seq<Room>, id: RoomId)
    ensures
        room_index(rooms, id) matches Some(i) ==> 0 <= i < rooms.len() && rooms[i].id == id,
        room_index(rooms, id) is None ==> forall|j: int| 0 <= j < rooms.len() ==> rooms[j].id != id,
    decreases rooms.len(),
{
    if rooms.len() > 0 {
        lemma_room_index(rooms.drop_first(), id);
        if room_index(rooms, id) is None {
            assert forall|j: int| 0 <= j < rooms.len() implies rooms[j].id != id by {
                if j > 0 {
                    assert(rooms.drop_first()[j - 1] == rooms[j]);
                }
            }
        }
    }
}

pub proof fn lemma_game_index(games: Seq<(RoomId, TurnBasedGame)>, id: RoomId)
    ensures
        game_index(games, id) matches Some(i) ==> 0 <= i < games.len() && games[i].0 == id,
    decreases games.len(),
{
    if games.len() > 0 {
        lemma_game_index(games.drop_first(), id);
    }
}

/// Why `host` may not create a room (`None`: accepted).
pub open spec fn create_rejection(
    pr: Seq<(PlayerId, RoomId)>,
    game_type: GameType,
    settings: GameSettings,
    host: PlayerId,
) -> Option<Seq<char>> {
    if !turn_based_supported(game_type) {
        Some(game_type_name(game_type) + " is not yet available"@)
    } else if settings.max_players != 2 {
        Some("This game requires exactly 2 players"@)
    } else if room_of(pr, host) is Some {
        Some("already in a room"@)
    } else {
        None
    }
}

/// The lobby entry of a room: its first member's name as the host name.
pub open spec fn summary_of(r: Room) -> (RoomId, GameType, u8, u8, RoomState, Seq<char>) {
    (
        r.id,
        r.game_type,
        (r.players@.len() % 256) as u8,
        r.settings.max_players,
        r.state,
        if r.players@.len() > 0 {
            r.players@[0].username@
        } else {
            Seq::empty()
        },
    )
}

pub open spec fn summary_view(s: RoomSummary) -> (RoomId, GameType, u8, u8, RoomState, Seq<char>) {
    (s.id, s.game_type, s.player_count, s.max_players, s.state, s.host_name@)
}

proof fn lemma_game_index_some(games: Seq<(RoomId, TurnBasedGame)>, id: RoomId, j: int)
    requires
        0 <= j < games.len(),
        games[j].0 == id,
    ensures
        game_index(games, id) is Some,
    decreases games.len(),
{
    if j > 0 && games[0].0 != id {
        lemma_game_index_some(games.drop_first(), id, j - 1);
    }
}

fn find_room(rooms: &Vec<Room>, id: RoomId) -> (r: Option<usize>)
    ensures
        match r {
            Some(i) => i < rooms@.len() && room_index(rooms@, id) == Some(i as int),
            None => room_index(rooms@, id) is None,
        },
{
    let mut i: usize = 0;
    assert(rooms@.skip(0) =~= rooms@);
    while i < rooms.len()
        invariant
            i <= rooms@.len(),
            room_index(rooms@, id) == match room_index(rooms@.skip(i as int), id) {
                Some(k) => Some(k + i),
                None => None::<int>,
            },
        decreases rooms@.len() - i,
    {
        assert(rooms@.skip(i as int)[0] == rooms@[i as int]);
        if rooms[i].id == id {
            return Some(i);
        }
        assert(rooms@.skip(i as int).drop_first() =~= rooms@.skip(i + 1));
        i += 1;
    }
    assert(rooms@.skip(i as int).len() == 0);
    None
}

fn find_player(pr: &Vec<(PlayerId, RoomId)>, player: PlayerId) -> (r: Option<usize>)
    ensures
        match r {
            Some(i) => i < pr@.len() && room_of(pr@, player) == Some(pr@[i as int].1) && pr@[i as int].0 == player
                && forall|j: int| 0 <= j < i ==> pr@[j].0 != player,
            None => room_of(pr@, player) is None,
        },
{
    let mut i: usize = 0;
    assert(pr@.skip(0) =~= pr@);
    while i < pr.len()
        invariant
            i <= pr@.len(),
            room_of(pr@, player) == room_of(pr@.skip(i as int), player),
            forall|j: int| 0 <= j < i ==> pr@[j].0 != player,
        decreases pr@.len() - i,
    {
        assert(pr@.skip(i as int)[0] == pr@[i as int]);
        if pr[i].0 == player {
            return Some(i);
        }
        assert(pr@.skip(i as int).drop_first() =~= pr@.skip(i + 1));
        i += 1;
    }
    assert(pr@.skip(i as int).len() == 0);
    None
}

fn find_game(games: &Vec<(RoomId, TurnBasedGame)>, id: RoomId) -> (r: Option<usize>)
    ensures
        match r {
            Some(i) => i < games@.len() && game_index(games@, id) == Some(i as int),
            None => game_index(games@, id) is None,
        },
{
    let mut i: usize = 0;
    assert(games@.skip(0) =~= games@);
    while i < games.len()
        invariant
            i <= games@.len(),
            game_index(games@, id) == match game_index(games@.skip(i as int), id) {
                Some(k) => Some(k + i),
                None => None::<int>,
            },
        decreases games@.len() - i,
    {
        assert(games@.skip(i as int)[0] == games@[i as int]);
        if games[i].0 == id {
            return Some(i);
        }
        assert(games@.skip(i as int).drop_first() =~= games@.skip(i + 1));
        i += 1;
    }
    assert(games@.skip(i as int).len() == 0);
    None
}

fn room_players(room: &Room) -> (r: Vec<PlayerInfo>)
    ensures
        r@ == room.players@,
{
    let mut r: Vec<PlayerInfo> = Vec::new();
    let mut i: usize = 0;
    while i < room.players.len()
        invariant
            i <= room.players@.len(),
            r@ == room.players@.subrange(0, i as int),
        decreases room.players@.len() - i,
    {
        r.push(room.players[i].copy());
        assert(room.players@.subrange(0, i + 1) =~= room.players@.subrange(0, i as int).push(room.players@[i as int]));
        i += 1;
    }
    assert(room.players@.subrange(0, i as int) =~= room.players@);
    r
}

fn player_ids(room: &Room) -> (r: Vec<PlayerId>)
    ensures
        r@ == ids_of(room.players@),
{
    let mut r: Vec<PlayerId> = Vec::new();
    let mut i: usize = 0;
    while i < room.players.len()
        invariant
            i <= room.players@.len(),
            r@ == ids_of(room.players@.subrange(0, i as int)),
        decreases room.players@.len() - i,
    {
        r.push(room.players[i].id);
        assert(ids_of(room.players@.subrange(0, i + 1)) =~= ids_of(room.players@.subrange(0, i as int)).push(room.players@[i as int].id));
        i += 1;
    }
    assert(room.players@.subrange(0, i as int) =~= room.players@);
    r
}

impl LobbyManager {
    /// A lobby with no rooms.
    pub fn new() -> (l: LobbyManager)
        ensures
            l.rooms@.len() == 0,
            l.player_rooms@.len() == 0,
            l.games@.len() == 0,
    {
        LobbyManager { rooms: Vec::new(), player_rooms: Vec::new(), games: Vec::new() }
    }

    /// Creates a room hosted by `host` (see `create_rejection`) under a fresh
    /// random id, and records the host in it.
    pub fn create_room(&mut self, game_type: GameType, settings: GameSettings, host: PlayerInfo) -> (r: Result<RoomId, String>)
        ensures
            created(*old(self), game_type, settings, host, r, *final(self)),
    {
        if !TurnBasedGame::is_supported(game_type) {
            let mut msg = game_type.display_name().to_owned();
            msg.append(" is not yet available");
            return Err(msg);
        }
        if settings.max_players != 2 {
            return Err("This game requires exactly 2 players".to_owned());
        }
        let host_id = host.id;
        if find_player(&self.player_rooms, host_id).is_some() {
            return Err("already in a room".to_owned());
        }
        let room_id = RoomId::new();
        let room = Room::new(room_id, game_type, settings, host);
        self.rooms.push(room);
        assert(self.rooms@.drop_last() =~= old(self).rooms@);
        self.player_rooms.push((host_id, room_id));
        Ok(room_id)
    }

    /// Starts a game in the room `room_id` (if it exists): the first game's
    /// starting player is chosen at random, later ones alternate; the room is
    /// marked in progress and its game (when the type is supported) replaces
    /// any previous one.
    pub fn start_game(&mut self, room_id: RoomId)
        requires
            room_index(old(self).rooms@, room_id) matches Some(i) ==> {
                &&& old(self).rooms@[i].games_played < u32::MAX
                &&& old(self).rooms@[i].games_played > 0 ==> old(self).rooms@[i].first_player_offset < 2
                &&& turn_based_supported(old(self).rooms@[i].game_type) ==> old(self).rooms@[i].players@.len() >= 2
            },
        ensures
            started(*old(self), room_id, *final(self)),
    {
        let idx = match find_room(&self.rooms, room_id) {
            Some(i) => i,
            None => {
                return;
            },
        };
        proof {
            lemma_room_index(self.rooms@, room_id);
        }
        let ghost rooms0 = self.rooms@;
        let mut room = self.rooms.remove(idx);
        assert(room == rooms0[idx as int]);
        if room.games_played == 0 {
            room.first_player_offset = random_bit();
        } else {
            room.first_player_offset = 1 - room.first_player_offset;
        }
        room.games_played = room.games_played + 1;
        room.state = RoomState::InProgress;
        let mut ids = player_ids(&room);
        if room.first_player_offset == 1 && ids.len() == 2 {
            let a = ids[0];
            let b = ids[1];
            ids.set(0, b);
            ids.set(1, a);
        }
        let game_type = room.game_type;
        let settings = room.settings;
        self.rooms.insert(idx, room);
        assert(self.rooms@ =~= rooms0.update(idx as int, self.rooms@[idx as int]));
        match TurnBasedGame::new(game_type, ids.as_slice(), &settings) {
            Some(game) => {
                match find_game(&self.games, room_id) {
                    Some(k) => {
                        self.games.set(k, (room_id, game));
                        proof {
                            lemma_game_index_some(self.games@, room_id, k as int);
                        }
                    },
                    None => {
                        self.games.push((room_id, game));
                        proof {
                            lemma_game_index_some(self.games@, room_id, self.games@.len() - 1);
                        }
                    },
                }
            },
            None => {},
        }
    }
}


proof fn lemma_room_index_update(rooms: Seq<Room>, id: RoomId, i: int, r: Room)
    requires
        room_index(rooms, id) == Some(i),
        r.id == id,
    ensures
        room_index(rooms.update(i, r), id) == Some(i),
    decreases rooms.len(),
{
    lemma_room_index(rooms, id);
    if i > 0 {
        assert(rooms.update(i, r).drop_first() =~= rooms.drop_first().update(i - 1, r));
        lemma_room_index_update(rooms.drop_first(), id, i - 1, r);
    }
}

/// Why `player` may not join the room `room_id` (`None`: accepted).
pub open spec fn join_room_rejection(
    rooms: Seq<Room>,
    pr: Seq<(PlayerId, RoomId)>,
    room_id: RoomId,
    player: PlayerId,
) -> Option<Seq<char>> {
    if room_of(pr, player) is Some {
        Some("already in a room"@)
    } else {
        match room_index(rooms, room_id) {
            None => Some("room not found"@),
            Some(i) => join_rejection(rooms[i], player),
        }
    }
}

impl LobbyManager {
    /// Adds `player` to the room `room_id` (see `join_room_rejection`) and
    /// returns its members; a room that becomes full starts its game.
    pub fn join_room(&mut self, room_id: RoomId, player: PlayerInfo) -> (r: Result<Vec<PlayerInfo>, String>)
        requires
            room_index(old(self).rooms@, room_id) matches Some(i) ==> {
                &&& old(self).rooms@[i].games_played < u32::MAX
                &&& old(self).rooms@[i].games_played > 0 ==> old(self).rooms@[i].first_player_offset < 2
                &&& turn_based_supported(old(self).rooms@[i].game_type) ==> old(self).rooms@[i].settings.max_players >= 2
            },
        ensures
            joined(*old(self), room_id, player, r, *final(self)),
    {
        let pid = player.id;
        if find_player(&self.player_rooms, pid).is_some() {
            return Err("already in a room".to_owned());
        }
        let idx = match find_room(&self.rooms, room_id) {
            Some(i) => i,
            None => {
                return Err("room not found".to_owned());
            },
        };
        proof {
            lemma_room_index(self.rooms@, room_id);
        }
        let ghost rooms0 = self.rooms@;
        let mut room = self.rooms.remove(idx);
        assert(room == rooms0[idx as int]);
        match room.add_player(player) {
            Err(e) => {
                self.rooms.insert(idx, room);
                assert(self.rooms@ =~= rooms0);
                return Err(e);
            },
            Ok(()) => {},
        }
        let players = room_players(&room);
        let full = room.is_full();
        self.rooms.insert(idx, room);
        assert(self.rooms@ =~= rooms0.update(idx as int, self.rooms@[idx as int]));
        proof {
            lemma_room_index_update(rooms0, room_id, idx as int, self.rooms@[idx as int]);
        }
        self.player_rooms.push((pid, room_id));
        if full {
            self.start_game(room_id);
        }
        Ok(players)
    }

    /// Ends the game of the room `room_id`: the game is dropped and the room
    /// marked finished.
    pub fn finish_game(&mut self, room_id: RoomId)
        ensures
            finished(*old(self), room_id, *final(self)),
    {
        match find_game(&self.games, room_id) {
            Some(k) => {
                self.games.remove(k);
            },
            None => {},
        }
        match find_room(&self.rooms, room_id) {
            Some(idx) => {
                let ghost rooms0 = self.rooms@;
                let mut room = self.rooms.remove(idx);
                assert(room == rooms0[idx as int]);
                room.state = RoomState::Finished;
                self.rooms.insert(idx, room);
                assert(self.rooms@ =~= rooms0.update(idx as int, self.rooms@[idx as int]));
            },
            None => {},
        }
    }

    /// The summaries of all rooms, in room order.
    pub fn list_rooms(&self) -> (r: Vec<RoomSummary>)
        ensures
            r@.map_values(|s: RoomSummary| summary_view(s)) == self.rooms@.map_values(|room: Room| summary_of(room)),
    {
        let mut r: Vec<RoomSummary> = Vec::new();
        let mut i: usize = 0;
        while i < self.rooms.len()
            invariant
                i <= self.rooms@.len(),
                r@.map_values(|s: RoomSummary| summary_view(s)) == self.rooms@.subrange(0, i as int).map_values(
                    |room: Room| summary_of(room),
                ),
            decreases self.rooms@.len() - i,
        {
            let room = &self.rooms[i];
            let host_name = if room.players.len() > 0 {
                room.players[0].username.clone()
            } else {
                String::new()
            };
            let s = RoomSummary {
                id: room.id,
                game_type: room.game_type,
                player_count: room.player_count(),
                max_players: room.settings.max_players,
                state: room.state,
                host_name,
            };
            assert(summary_view(s) == summary_of(self.rooms@[i as int]));
            let ghost before = r@;
            r.push(s);
            proof {
                let f = |s: RoomSummary| summary_view(s);
                let g = |room: Room| summary_of(room);
                assert(r@ == before.push(s));
                assert(r@.map_values(f) =~= before.map_values(f).push(f(s)));
                assert(self.rooms@.subrange(0, i + 1) =~= self.rooms@.subrange(0, i as int).push(self.rooms@[i as int]));
                assert(self.rooms@.subrange(0, i + 1).map_values(g) =~= self.rooms@.subrange(0, i as int).map_values(g).push(g(self.rooms@[i as int])));
            }
            i += 1;
        }
        assert(self.rooms@.subrange(0, i as int) =~= self.rooms@);
        r
    }

    /// The members of the room `room_id`, if it exists.
    pub fn get_room_players(&self, room_id: RoomId) -> (r: Option<Vec<PlayerInfo>>)
        ensures
            match room_index(self.rooms@, room_id) {
                Some(i) => r matches Some(ps) && ps@ == self.rooms@[i].players@,
                None => r is None,
            },
    {
        match find_room(&self.rooms, room_id) {
            Some(i) => Some(room_players(&self.rooms[i])),
            None => None,
        }
    }

    /// The room `player_id` is in, if any.
    pub fn get_player_room(&self, player_id: PlayerId) -> (r: Option<RoomId>)
        ensures
            r == room_of(self.player_rooms@, player_id),
    {
        match find_player(&self.player_rooms, player_id) {
            Some(i) => Some(self.player_rooms[i].1),
            None => None,
        }
    }

    /// Takes `player_id` out of their room. Returns the room left, whether it
    /// is now empty (then it is removed with its game), and whether a game in
    /// progress was aborted (the room then waits again); `None` when the
    /// player was in no room or the room no longer exists.
    pub fn leave_room(&mut self, player_id: PlayerId) -> (r: Option<(RoomId, bool, bool)>)
        ensures
            left(*old(self), player_id, r, *final(self)),
    {
        let k = match find_player(&self.player_rooms, player_id) {
            Some(k) => k,
            None => {
                return None;
            },
        };
        proof {
            lemma_first_entry(old(self).player_rooms@, player_id, k as int);
        }
        let entry = self.player_rooms.remove(k);
        let room_id = entry.1;
        let idx = match find_room(&self.rooms, room_id) {
            Some(i) => i,
            None => {
                return None;
            },
        };
        proof {
            lemma_room_index(self.rooms@, room_id);
        }
        let ghost rooms0 = self.rooms@;
        let mut room = self.rooms.remove(idx);
        assert(room == rooms0[idx as int]);
        room.remove_player(player_id);
        let empty = room.is_empty();
        let game_pos = find_game(&self.games, room_id);
        if empty {
            match game_pos {
                Some(g) => {
                    self.games.remove(g);
                },
                None => {},
            }
            return Some((room_id, true, false));
        }
        let aborted = game_pos.is_some();
        match game_pos {
            Some(g) => {
                self.games.remove(g);
                room.state = RoomState::Waiting;
            },
            None => {},
        }
        self.rooms.insert(idx, room);
        assert(self.rooms@ =~= rooms0.update(idx as int, self.rooms@[idx as int]));
        Some((room_id, false, aborted))
    }

    /// Removes the empty rooms idle for more than `EMPTY_ROOM_TIMEOUT_SECS`
    /// (by the clock) and returns how many were removed. Rooms with members
    /// are always kept, in order.
    pub fn cleanup_empty_rooms(&mut self) -> (removed: usize)
        ensures
            removed == old(self).rooms@.len() - final(self).rooms@.len(),
            forall|j: int| 0 <= j < final(self).rooms@.len() ==> old(self).rooms@.contains(#[trigger] final(self).rooms@[j]),
            old(self).rooms@.filter(|r: Room| r.players@.len() > 0) == final(self).rooms@.filter(|r: Room| r.players@.len() > 0),
            final(self).player_rooms@ == old(self).player_rooms@,
            final(self).games@ == old(self).games@,
            exists|idle: Seq<bool>|
                idle.len() == old(self).rooms@.len() && final(self).rooms@ == #[trigger] kept_rooms(
                    old(self).rooms@,
                    idle,
                ),
    {
        let ghost rooms0 = self.rooms@;
        let ghost mut idles: Seq<bool> = Seq::empty();
        let mut kept: Vec<Room> = Vec::new();
        let mut removed: usize = 0;
        let mut rooms = Vec::new();
        std::mem::swap(&mut rooms, &mut self.rooms);
        let ghost pred = |r: Room| r.players@.len() > 0;
        let mut i: usize = 0;
        let n = rooms.len();
        while rooms.len() > 0
            invariant
                rooms0 == old(self).rooms@,
                pred == (|r: Room| r.players@.len() > 0),
                n == rooms0.len(),
                rooms@.len() + i == n,
                rooms@ == rooms0.skip(i as int),
                removed == i - kept@.len(),
                removed <= i,
                forall|j: int| 0 <= j < kept@.len() ==> rooms0.contains(#[trigger] kept@[j]),
                rooms0.subrange(0, i as int).filter(pred) == kept@.filter(pred),
                idles.len() == i,
                kept@ == kept_rooms(rooms0.subrange(0, i as int), idles),
                self.player_rooms@ == old(self).player_rooms@,
                self.games@ == old(self).games@,
            decreases rooms@.len(),
        {
            let room = rooms.remove(0);
            proof {
                assert(room == rooms0[i as int]);
                assert(rooms@ =~= rooms0.skip(i + 1));
                assert(rooms0.subrange(0, i + 1) =~= rooms0.subrange(0, i as int).push(room));
                rooms0.subrange(0, i as int).lemma_filter_push(room, pred);
                kept@.lemma_filter_push(room, pred);
            }
            let idle = millis_since(&room.last_activity);
            let ghost kept0 = kept@;
            proof {
                let sub = rooms0.subrange(0, i + 1);
                let nid = idles.push(idle > EMPTY_ROOM_TIMEOUT_SECS * 1000);
                assert(sub.drop_last() =~= rooms0.subrange(0, i as int));
                assert(nid.drop_last() =~= idles);
                assert(sub.last() == room);
                idles = nid;
            }
            if room.is_empty() && idle > EMPTY_ROOM_TIMEOUT_SECS * 1000 {
                removed += 1;
            } else {
                kept.push(room);
                proof {
                    assert(rooms0.contains(kept@.last())) by {
                        assert(rooms0[i as int] == room);
                    }
                }
            }
            i += 1;
        }
        assert(rooms0.subrange(0, i as int) =~= rooms0);
        self.rooms = kept;
        removed
    }
}

/// The rooms kept by a cleanup in which `idle[i]` tells whether room `i`
/// has been idle too long: all but the empty idle ones, in order.
pub open spec fn kept_rooms(rooms: Seq<Room>, idle: Seq<bool>) -> Seq<Room>
    decreases rooms.len(),
{
    if rooms.len() == 0 || idle.len() == 0 {
        Seq::empty()
    } else {
        let prev = kept_rooms(rooms.drop_last(), idle.drop_last());
        if rooms.last().players@.len() == 0 && idle.last() {
            prev
        } else {
            prev.push(rooms.last())
        }
    }
}

/// What `start_game` does: the room (if any) is marked in progress with one
/// more game played, its first player chosen at random the first time and
/// alternating after that; its game, for a turn-based type, is replaced by a
/// new one.
pub open spec fn started(l0: LobbyManager, room_id: RoomId, l1: LobbyManager) -> bool {
    &&& l1.player_rooms@ == l0.player_rooms@
    &&& l1.rooms@.len() == l0.rooms@.len()
    &&& room_index(l0.rooms@, room_id) is None ==> l1.rooms@ == l0.rooms@ && l1.games@ == l0.games@
    &&& room_index(l0.rooms@, room_id) matches Some(i) ==> {
        let r0 = l0.rooms@[i];
        let r1 = l1.rooms@[i];
        &&& forall|j: int| 0 <= j < l0.rooms@.len() && j != i ==> l1.rooms@[j] == l0.rooms@[j]
        &&& r1.id == r0.id && r1.game_type == r0.game_type && r1.settings == r0.settings
        &&& r1.players@ == r0.players@ && r1.host == r0.host
        &&& r1.state == RoomState::InProgress
        &&& r1.games_played == r0.games_played + 1
        &&& r1.first_player_offset < 2
        &&& r0.games_played > 0 ==> r1.first_player_offset == 1 - r0.first_player_offset
        &&& turn_based_supported(r0.game_type) ==> game_index(l1.games@, room_id) is Some
        &&& !turn_based_supported(r0.game_type) ==> l1.games@ == l0.games@
    }
}

/// What `create_room` does: see `create_rejection` for a refusal; an
/// accepted room is appended, waiting, with the host as its only member.
pub open spec fn created(l0: LobbyManager, game_type: GameType, settings: GameSettings, host: PlayerInfo, r: Result<RoomId, String>, l1: LobbyManager) -> bool {
    &&& l1.games@ == l0.games@
    &&& match r {
        Err(e) => create_rejection(l0.player_rooms@, game_type, settings, host.id) == Some(e@)
            && l1.rooms@ == l0.rooms@ && l1.player_rooms@ == l0.player_rooms@,
        Ok(id) => {
            &&& create_rejection(l0.player_rooms@, game_type, settings, host.id) is None
            &&& l1.rooms@.len() == l0.rooms@.len() + 1
            &&& l1.rooms@.drop_last() == l0.rooms@
            &&& {
                let room = l1.rooms@.last();
                &&& room.id == id
                &&& room.game_type == game_type
                &&& room.settings == settings
                &&& room.state == RoomState::Waiting
                &&& room.players@ == seq![host]
                &&& room.host == host.id
                &&& room.games_played == 0
            }
            &&& l1.player_rooms@ == l0.player_rooms@.push((host.id, id))
        }
    }
}

/// What `join_room` does: see `join_room_rejection` for a refusal; an
/// accepted player is appended to the room, and a room that becomes full
/// starts its game.
pub open spec fn joined(l0: LobbyManager, room_id: RoomId, player: PlayerInfo, r: Result<Vec<PlayerInfo>, String>, l1: LobbyManager) -> bool {
    &&& match r {
        Err(e) => {
            &&& join_room_rejection(l0.rooms@, l0.player_rooms@, room_id, player.id) == Some(e@)
            &&& l1.rooms@ == l0.rooms@
            &&& l1.player_rooms@ == l0.player_rooms@
            &&& l1.games@ == l0.games@
        },
        Ok(players) => {
            let i = room_index(l0.rooms@, room_id)->Some_0;
            let r0 = l0.rooms@[i];
            let r1 = l1.rooms@[i];
            &&& join_room_rejection(l0.rooms@, l0.player_rooms@, room_id, player.id) is None
            &&& players@ == r0.players@.push(player)
            &&& r1.players@ == players@
            &&& l1.player_rooms@ == l0.player_rooms@.push((player.id, room_id))
            &&& l1.rooms@.len() == l0.rooms@.len()
            &&& forall|j: int| 0 <= j < l0.rooms@.len() && j != i ==> l1.rooms@[j] == l0.rooms@[j]
            &&& r1.id == r0.id && r1.game_type == r0.game_type && r1.settings == r0.settings && r1.host == r0.host
            &&& players@.len() >= r0.settings.max_players ==> r1.state == RoomState::InProgress
                && r1.games_played == r0.games_played + 1 && (turn_based_supported(r0.game_type)
                ==> game_index(l1.games@, room_id) is Some)
            &&& players@.len() < r0.settings.max_players ==> r1.state == r0.state && r1.games_played
                == r0.games_played && l1.games@ == l0.games@
        }
    }
}

/// What `finish_game` does: the room's game is dropped and the room marked
/// finished.
pub open spec fn finished(l0: LobbyManager, room_id: RoomId, l1: LobbyManager) -> bool {
    &&& l1.player_rooms@ == l0.player_rooms@
    &&& l1.games@ == match game_index(l0.games@, room_id) {
        Some(k) => l0.games@.remove(k),
        None => l0.games@
    }
    &&& l1.rooms@.len() == l0.rooms@.len()
    &&& match room_index(l0.rooms@, room_id) {
        Some(i) => {
            &&& l1.rooms@[i].state == RoomState::Finished
            &&& same_room_but_members(l1.rooms@[i], Room { state: RoomState::Finished, ..l0.rooms@[i] })
            &&& l1.rooms@[i].players@ == l0.rooms@[i].players@
            &&& forall|j: int| 0 <= j < l0.rooms@.len() && j != i ==> l1.rooms@[j] == l0.rooms@[j]
        },
        None => l1.rooms@ == l0.rooms@
    }
}

/// What `leave_room` does: the player's entry is dropped; an emptied room is
/// removed with its game; otherwise a game in progress is aborted and the
/// room waits again.
pub open spec fn left(l0: LobbyManager, player_id: PlayerId, r: Option<(RoomId, bool, bool)>, l1: LobbyManager) -> bool {
    &&& match room_of(l0.player_rooms@, player_id) {
        None => r is None && l1.player_rooms@ == l0.player_rooms@ && l1.rooms@
            == l0.rooms@ && l1.games@ == l0.games@,
        Some(rid) => {
            &&& l1.player_rooms@.len() + 1 == l0.player_rooms@.len()
            &&& room_of(l1.player_rooms@, player_id) == room_of(
                l0.player_rooms@.remove(first_entry(l0.player_rooms@, player_id)),
                player_id,
            )
            &&& l1.player_rooms@ == l0.player_rooms@.remove(first_entry(l0.player_rooms@, player_id))
            &&& match room_index(l0.rooms@, rid) {
                None => r is None && l1.rooms@ == l0.rooms@ && l1.games@
                    == l0.games@,
                Some(i) => {
                    let r0 = l0.rooms@[i];
                    let left = r0.players@.filter(|p: PlayerInfo| p.id != player_id);
                    if left.len() == 0 {
                        &&& r == Some((rid, true, false))
                        &&& l1.rooms@ == l0.rooms@.remove(i)
                        &&& l1.games@ == match game_index(l0.games@, rid) {
                            Some(k) => l0.games@.remove(k),
                            None => l0.games@,
                        }
                    } else {
                        let aborted = game_index(l0.games@, rid) is Some;
                        let r1 = l1.rooms@[i];
                        &&& r == Some((rid, false, aborted))
                        &&& l1.rooms@.len() == l0.rooms@.len()
                        &&& forall|j: int| 0 <= j < l0.rooms@.len() && j != i ==> l1.rooms@[j] == l0.rooms@[j]
                        &&& r1.players@ == left
                        &&& r1.id == r0.id && r1.game_type == r0.game_type && r1.settings == r0.settings
                        &&& r1.state == if aborted {
                            RoomState::Waiting
                        } else {
                            r0.state
                        }
                        &&& l1.games@ == match game_index(l0.games@, rid) {
                            Some(k) => l0.games@.remove(k),
                            None => l0.games@,
                        }
                    }
                },
            }
        }
    }
}

impl LobbyManager {
    /// What the handlers rely on: every room can start another game (its
    /// count has room, its first-player offset is 0 or 1, a turn-based type
    /// is played by at least two) and every game is in a reachable state.
    pub open spec fn ready(&self) -> bool {
        &&& forall|i: int|
            0 <= i < self.rooms@.len() ==> {
                let r = #[trigger] self.rooms@[i];
                &&& r.games_played < u32::MAX
                &&& r.first_player_offset < 2
                &&& turn_based_supported(r.game_type) ==> r.settings.max_players >= 2
            }
        &&& forall|k: int| 0 <= k < self.games@.len() ==> (#[trigger] self.games@[k]).1.wf()
    }

    /// Checks `ready`.
    pub fn is_ready(&self) -> (r: bool)
        ensures
            r == self.ready(),
    {
        let mut i: usize = 0;
        while i < self.rooms.len()
            invariant
                i <= self.rooms@.len(),
                forall|j: int|
                    0 <= j < i ==> {
                        let r = #[trigger] self.rooms@[j];
                        &&& r.games_played < u32::MAX
                        &&& r.first_player_offset < 2
                        &&& turn_based_supported(r.game_type) ==> r.settings.max_players >= 2
                    },
            decreases self.rooms@.len() - i,
        {
            let r = &self.rooms[i];
            if r.games_played == u32::MAX || r.first_player_offset >= 2 {
                return false;
            }
            if TurnBasedGame::is_supported(r.game_type) && r.settings.max_players < 2 {
                return false;
            }
            i += 1;
        }
        let mut k: usize = 0;
        while k < self.games.len()
            invariant
                k <= self.games@.len(),
                forall|j: int| 0 <= j < k ==> (#[trigger] self.games@[j]).1.wf(),
            decreases self.games@.len() - k,
        {
            if !self.games[k].1.is_consistent() {
                return false;
            }
            k += 1;
        }
        true
    }

    /// The game type of the room `room_id`, if it exists.
    pub fn get_room_game_type(&self, room_id: RoomId) -> (r: Option<GameType>)
        ensures
            r == match room_index(self.rooms@, room_id) {
                Some(i) => Some(self.rooms@[i].game_type),
                None => None,
            },
    {
        match find_room(&self.rooms, room_id) {
            Some(i) => Some(self.rooms[i].game_type),
            None => None,
        }
    }

    /// The state of the game of room `room_id`, if one is being played.
    pub fn game_state(&self, room_id: RoomId) -> (r: Option<GameState>)
        ensures
            r == match game_index(self.games@, room_id) {
                Some(k) => Some(self.games@[k].1.state),
                None => None,
            },
    {
        match find_game(&self.games, room_id) {
            Some(k) => Some(self.games[k].1.state),
            None => None,
        }
    }

    /// Plays `mv` for `player` in the game of room `room_id`: `None` when the
    /// room has no game; otherwise the result of the move (see
    /// `play_outcome`) with the game's state, players and finished flag after
    /// it.
    pub fn play_in_room(&mut self, room_id: RoomId, player: PlayerId, mv: &TicTacToeMove) -> (r: Option<
        (Result<Option<GameOutcome>, String>, GameState, Vec<PlayerId>, bool),
    >)
        requires
            game_index(old(self).games@, room_id) matches Some(k) ==> old(self).games@[k].1.wf(),
        ensures
            final(self).rooms@ == old(self).rooms@,
            final(self).player_rooms@ == old(self).player_rooms@,
            match game_index(old(self).games@, room_id) {
                None => r is None && final(self).games@ == old(self).games@,
                Some(k) => {
                    let g1 = final(self).games@[k].1;
                    &&& r matches Some((res, st, ps, fin)) && play_outcome(old(self).games@[k].1, player, *mv, res, g1)
                        && st == g1.state && ps@ == g1.players@ && fin == g1.finished
                    &&& final(self).games@ == old(self).games@.update(k, (room_id, g1))
                },
            },
    {
        let k = match find_game(&self.games, room_id) {
            Some(k) => k,
            None => {
                return None;
            },
        };
        proof {
            lemma_game_index(self.games@, room_id);
        }
        let ghost games0 = self.games@;
        let (rid, mut g) = self.games.remove(k);
        assert((rid, g) == games0[k as int]);
        let res = g.play(player, mv);
        let st = g.state;
        let ps = copy_ids(&g.players);
        let fin = g.finished;
        self.games.insert(k, (rid, g));
        assert(self.games@ =~= games0.update(k as int, (room_id, g)));
        Some((res, st, ps, fin))
    }
}

/// The position of the first entry of `player`.
pub open spec fn first_entry(pr: Seq<(PlayerId, RoomId)>, player: PlayerId) -> int
    decreases pr.len(),
{
    if pr.len() == 0 || pr[0].0 == player {
        0
    } else {
        first_entry(pr.drop_first(), player) + 1
    }
}

proof fn lemma_first_entry(pr: Seq<(PlayerId, RoomId)>, player: PlayerId, k: int)
    requires
        0 <= k < pr.len(),
        pr[k].0 == player,
        forall|j: int| 0 <= j < k ==> pr[j].0 != player,
    ensures
        first_entry(pr, player) == k,
        room_of(pr, player) == Some(pr[k].1),
    decreases k,
{
    if k > 0 {
        lemma_first_entry(pr.drop_first(), player, k - 1);
    }
}

} // verus!
