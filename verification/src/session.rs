use vstd::prelude::*;

use crate::clock::{instant_now, secs_since};
use crate::messages::ServerMsg;
use crate::types::{PlayerId, RoomId, SessionId};

verus! {

/// Replay buffer size of a new session.
pub const DEFAULT_REPLAY_BUFFER: usize = 100;

/// Per-connection state on the server: identity, sequence numbers and a
/// bounded buffer of recent messages for replay on reconnection.
pub struct Session {
    pub session_id: SessionId,
    pub player_id: Option<PlayerId>,
    pub username: Option<String>,
    pub authenticated: bool,
    pub seq: u64,
    /// The room the player is in, as far as this connection knows.
    pub current_room: Option<RoomId>,
    pub recent_messages: std::collections::VecDeque<(u64, ServerMsg)>,
    pub last_active: std::time::Instant,
    pub max_buffer: usize,
}

/// The messages of `buf` numbered after `last_seq`, oldest first.
pub open spec fn messages_after(buf: Seq<(u64, ServerMsg)>, last_seq: u64) -> Seq<ServerMsg>
    decreases buf.len(),
{
    if buf.len() == 0 {
        Seq::empty()
    } else {
        let rest = messages_after(buf.drop_last(), last_seq);
        if buf.last().0 > last_seq {
            rest.push(buf.last().1)
        } else {
            rest
        }
    }
}

/// The buffer after recording one message: the oldest entry is dropped when
/// the buffer is full.
pub open spec fn buffer_after(buf: Seq<(u64, ServerMsg)>, cap: nat, entry: (u64, ServerMsg)) -> Seq<(u64, ServerMsg)> {
    if buf.len() >= cap && buf.len() > 0 {
        buf.drop_first().push(entry)
    } else {
        buf.push(entry)
    }
}

impl Session {
    /// The recorded messages, oldest first.
    pub open spec fn buffer(&self) -> Seq<(u64, ServerMsg)> {
        self.recent_messages@
    }

    /// How many messages the buffer keeps.
    pub open spec fn capacity(&self) -> nat {
        self.max_buffer as nat
    }

    /// A fresh, unauthenticated session keeping `max_buffer` messages.
    pub fn with_buffer_size(max_buffer: usize) -> (s: Session)
        ensures
            s.player_id.is_none(),
            s.username.is_none(),
            !s.authenticated,
            s.seq == 0,
            s.current_room.is_none(),
            s.buffer().len() == 0,
            s.capacity() == max_buffer,
    {
        Session {
            session_id: SessionId::new(),
            player_id: None,
            username: None,
            authenticated: false,
            seq: 0,
            current_room: None,
            recent_messages: std::collections::VecDeque::new(),
            last_active: instant_now(),
            max_buffer,
        }
    }

    /// A fresh, unauthenticated session keeping the last 100 messages.
    pub fn new() -> (s: Session)
        ensures
            s.player_id.is_none(),
            s.username.is_none(),
            !s.authenticated,
            s.seq == 0,
            s.current_room.is_none(),
            s.buffer().len() == 0,
            s.capacity() == DEFAULT_REPLAY_BUFFER,
    {
        Session::with_buffer_size(DEFAULT_REPLAY_BUFFER)
    }

    /// Number of buffered messages.
    pub fn buffered_len(&self) -> (n: usize)
        ensures
            n == self.buffer().len(),
    {
        self.recent_messages.len()
    }

    /// Records a sent message (with the sequence number it was sent with) for
    /// replay, dropping the oldest one when the buffer is full.
    pub fn record_message(&mut self, seq: u64, msg: ServerMsg)
        ensures
            final(self).current_room == old(self).current_room,
            final(self).buffer() == buffer_after(old(self).buffer(), old(self).capacity(), (seq, msg)),
            final(self).capacity() == old(self).capacity(),
            final(self).seq == old(self).seq,
            final(self).player_id == old(self).player_id,
            final(self).authenticated == old(self).authenticated,
    {
        if self.recent_messages.len() >= self.max_buffer && self.recent_messages.len() > 0 {
            self.recent_messages.pop_front();
        }
        self.recent_messages.push_back((seq, msg));
        proof {
            assert(self.recent_messages@ =~= buffer_after(old(self).buffer(), old(self).capacity(), (seq, msg)));
        }
    }

    /// The buffered messages numbered after `last_seq`, oldest first.
    pub fn messages_since(&self, last_seq: u64) -> (r: Vec<&ServerMsg>)
        ensures
            r@.map_values(|m: &ServerMsg| *m) == messages_after(self.buffer(), last_seq),
    {
        let mut r: Vec<&ServerMsg> = Vec::new();
        let mut i: usize = 0;
        while i < self.recent_messages.len()
            invariant
                i <= self.recent_messages@.len(),
                r@.map_values(|m: &ServerMsg| *m) == messages_after(
                    self.recent_messages@.subrange(0, i as int),
                    last_seq,
                ),
            decreases self.recent_messages@.len() - i,
        {
            let ghost pre = self.recent_messages@.subrange(0, i as int);
            let ghost next = self.recent_messages@.subrange(0, i + 1);
            assert(next.drop_last() =~= pre);
            let entry = &self.recent_messages[i];
            if entry.0 > last_seq {
                r.push(&entry.1);
            }
            assert(r@.map_values(|m: &ServerMsg| *m) =~= messages_after(next, last_seq));
            i += 1;
        }
        assert(self.recent_messages@.subrange(0, i as int) =~= self.recent_messages@);
        r
    }

    /// The next outgoing sequence number (counting from 1).
    pub fn next_seq(&mut self) -> (n: u64)
        requires
            old(self).seq < u64::MAX,
        ensures
            final(self).current_room == old(self).current_room,
            final(self).seq == old(self).seq + 1,
            n == final(self).seq,
            final(self).buffer() == old(self).buffer(),
            final(self).capacity() == old(self).capacity(),
    {
        self.seq = self.seq + 1;
        self.seq
    }

    /// Whole seconds since the session was last active (by the clock).
    pub fn idle_secs(&self) -> (r: u64) {
        secs_since(&self.last_active)
    }

    /// Marks the session active now.
    pub fn touch(&mut self)
        ensures
            final(self).current_room == old(self).current_room,
            final(self).buffer() == old(self).buffer(),
            final(self).capacity() == old(self).capacity(),
            final(self).seq == old(self).seq,
            final(self).player_id == old(self).player_id,
            final(self).username == old(self).username,
            final(self).authenticated == old(self).authenticated,
    {
        self.last_active = instant_now();
    }

    /// Marks the session authenticated as `player_id`.
    pub fn authenticate(&mut self, player_id: PlayerId, username: String)
        ensures
            final(self).player_id == Some(player_id),
            final(self).username == Some(username),
            final(self).authenticated,
            final(self).seq == old(self).seq,
            final(self).current_room == old(self).current_room,
            final(self).buffer() == old(self).buffer(),
            final(self).capacity() == old(self).capacity(),
    {
        self.player_id = Some(player_id);
        self.username = Some(username);
        self.authenticated = true;
        self.touch();
    }
}

} // verus!
