use vstd::prelude::*;

use crate::clock::instant_now;
use crate::types::{GameSettings, GameType, PlayerId, PlayerInfo, RoomId, RoomState};

verus! {

/// A game room on the server.
#[derive(Debug)]
pub struct Room {
    pub id: RoomId,
    pub game_type: GameType,
    pub settings: GameSettings,
    pub state: RoomState,
    /// Members in joining order; the first is the host while present.
    pub players: Vec<PlayerInfo>,
    pub host: PlayerId,
    /// Games started in this room so far.
    pub games_played: u32,
    /// 1 when the second member moves first in the current game.
    pub first_player_offset: u8,
    pub created_at: std::time::Instant,
    pub last_activity: std::time::Instant,
}

/// The identities of a list of players.
pub open spec fn ids_of(ps: Seq<PlayerInfo>) -> Seq<PlayerId> {
    ps.map_values(|p: PlayerInfo| p.id)
}

/// Why `player` may not join `room` (`None`: accepted).
pub open spec fn join_rejection(room: Room, player: PlayerId) -> Option<Seq<char>> {
    if room.players@.len() >= room.settings.max_players {
        Some("room is full"@)
    } else if ids_of(room.players@).contains(player) {
        Some("already in room"@)
    } else if room.state != RoomState::Waiting {
        Some("game already in progress"@)
    } else {
        None
    }
}

/// Room fields other than the members and the activity time are equal.
pub open spec fn same_room_but_members(a: Room, b: Room) -> bool {
    &&& a.id == b.id
    &&& a.game_type == b.game_type
    &&& a.settings == b.settings
    &&& a.state == b.state
    &&& a.host == b.host
    &&& a.games_played == b.games_played
    &&& a.first_player_offset == b.first_player_offset
}

impl Room {
    /// A waiting room with `host` as its only member.
    pub fn new(id: RoomId, game_type: GameType, settings: GameSettings, host: PlayerInfo) -> (r: Room)
        ensures
            r.id == id,
            r.game_type == game_type,
            r.settings == settings,
            r.state == RoomState::Waiting,
            r.players@ == seq![host],
            r.host == host.id,
            r.games_played == 0,
            r.first_player_offset == 0,
    {
        let host_id = host.id;
        let mut players: Vec<PlayerInfo> = Vec::new();
        players.push(host);
        Room {
            id,
            game_type,
            settings,
            state: RoomState::Waiting,
            players,
            host: host_id,
            games_played: 0,
            first_player_offset: 0,
            created_at: instant_now(),
            last_activity: instant_now(),
        }
    }

    /// Whether the room has as many members as its settings allow.
    pub fn is_full(&self) -> (r: bool)
        ensures
            r == (self.players@.len() >= self.settings.max_players),
    {
        self.players.len() >= self.settings.max_players as usize
    }

    /// Number of members (modulo 256, as a `u8`).
    pub fn player_count(&self) -> (n: u8)
        ensures
            n == (self.players@.len() % 256) as u8,
    {
        (self.players.len() % 256) as u8
    }

    /// Whether `player_id` is a member.
    pub fn has_player(&self, player_id: PlayerId) -> (r: bool)
        ensures
            r == ids_of(self.players@).contains(player_id),
    {
        let mut i: usize = 0;
        while i < self.players.len()
            invariant
                i <= self.players@.len(),
                forall|j: int| 0 <= j < i ==> self.players@[j].id != player_id,
            decreases self.players@.len() - i,
        {
            if self.players[i].id == player_id {
                assert(ids_of(self.players@)[i as int] == player_id);
                return true;
            }
            i += 1;
        }
        assert forall|j: int| 0 <= j < ids_of(self.players@).len() implies ids_of(self.players@)[j] != player_id by {
            assert(self.players@[j].id != player_id);
        }
        false
    }

    /// Adds a member (see `join_rejection`).
    pub fn add_player(&mut self, player: PlayerInfo) -> (r: Result<(), String>)
        ensures
            same_room_but_members(*old(self), *final(self)),
            match r {
                Ok(()) => join_rejection(*old(self), player.id) is None && final(self).players@ == old(
                    self,
                ).players@.push(player),
                Err(e) => join_rejection(*old(self), player.id) == Some(e@) && *final(self) == *old(self),
            },
    {
        if self.is_full() {
            return Err("room is full".to_owned());
        }
        if self.has_player(player.id) {
            return Err("already in room".to_owned());
        }
        if self.state != RoomState::Waiting {
            return Err("game already in progress".to_owned());
        }
        self.players.push(player);
        self.last_activity = instant_now();
        Ok(())
    }

    /// Removes the member `player_id` (every entry of it); reports whether
    /// there was one.
    pub fn remove_player(&mut self, player_id: PlayerId) -> (removed: bool)
        ensures
            same_room_but_members(*old(self), *final(self)),
            final(self).players@ == old(self).players@.filter(|p: PlayerInfo| p.id != player_id),
            removed == ids_of(old(self).players@).contains(player_id),
    {
        let ghost ps = self.players@;
        let mut kept: Vec<PlayerInfo> = Vec::new();
        let mut found = false;
        let mut i: usize = 0;
        while i < self.players.len()
            invariant
                ps == self.players@,
                i <= ps.len(),
                kept@ == ps.subrange(0, i as int).filter(|p: PlayerInfo| p.id != player_id),
                found == exists|j: int| 0 <= j < i && ps[j].id == player_id,
            decreases ps.len() - i,
        {
            proof {
                assert(ps.subrange(0, i + 1) =~= ps.subrange(0, i as int).push(ps[i as int]));
                ps.subrange(0, i as int).lemma_filter_push(ps[i as int], |p: PlayerInfo| p.id != player_id);
            }
            if self.players[i].id != player_id {
                kept.push(self.players[i].copy());
            } else {
                found = true;
            }
            i += 1;
        }
        assert(ps.subrange(0, i as int) =~= ps);
        proof {
            if found {
                let j = choose|j: int| 0 <= j < ps.len() && ps[j].id == player_id;
                assert(ids_of(ps)[j] == player_id);
            } else {
                assert forall|j: int| 0 <= j < ids_of(ps).len() implies ids_of(ps)[j] != player_id by {
                    assert(ps[j].id != player_id);
                }
            }
        }
        self.players = kept;
        self.last_activity = instant_now();
        found
    }

    /// Whether the room has no member.
    pub fn is_empty(&self) -> (r: bool)
        ensures
            r == (self.players@.len() == 0),
    {
        self.players.len() == 0
    }

    /// Marks the room active now.
    pub fn touch(&mut self)
        ensures
            same_room_but_members(*old(self), *final(self)),
            final(self).players@ == old(self).players@,
    {
        self.last_activity = instant_now();
    }
}

} // verus!
