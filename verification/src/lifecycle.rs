//! The life of a client connection on the server, apart from the messages
//! it carries: what is sent first, when an idle connection is closed, how
//! many connections are admitted, and what is cleaned up when it ends.
use vstd::prelude::*;

use crate::handler::{lobby_same, members, members_of, other_ids, others, send_each, sends, Notice, Outgoing};
use crate::lobby::{left, LobbyManager};
use crate::messages::{Envelope, ServerMsg};
use crate::session::Session;
use crate::types::{GameOutcome, PlayerId, RoomId, SessionId};
use crate::version::{MIN_CLIENT_VERSION, PROTOCOL_VERSION};

verus! {

/// A connection with no activity for longer than this many seconds is closed.
pub const IDLE_TIMEOUT_SECS: u64 = 300;

/// At most this many client connections are served at once.
pub const MAX_CONCURRENT_CONNECTIONS: usize = 1024;

/// The largest message a client may send, in bytes.
pub const MAX_WS_MESSAGE_BYTES: usize = 65536;

/// Whether a client message of `len` bytes is within the message cap; a
/// larger one ends the connection.
pub fn message_size_ok(len: usize) -> (r: bool)
    ensures
        r == (len <= MAX_WS_MESSAGE_BYTES),
{
    len <= MAX_WS_MESSAGE_BYTES
}

/// How many password hashes may run at once on a machine with `cpus`
/// processors (`None` when that is unknown, counted as 2): half of them,
/// but at least 2.
pub fn argon2_permits(cpus: Option<usize>) -> (r: usize)
    ensures
        r == ({
            let n: int = match cpus {
                Some(k) => k as int,
                None => 2,
            };
            if n / 2 < 2 {
                2
            } else {
                n / 2
            }
        }),
{
    let n = match cpus {
        Some(k) => k,
        None => 2,
    };
    if n / 2 < 2 {
        2
    } else {
        n / 2
    }
}

/// The server's release, as announced to each new connection.
pub open spec fn server_version_text() -> Seq<char> {
    "0.1.0"@
}

/// The first message of every connection: the server's release and the
/// oldest client protocol it accepts.
pub fn connection_opened() -> (r: ServerMsg)
    ensures
        r matches ServerMsg::ServerVersion { version, min_client_protocol }
            && version@ == server_version_text() && min_client_protocol == MIN_CLIENT_VERSION,
{
    let version = "0.1.0".to_owned();
    ServerMsg::ServerVersion { version, min_client_protocol: MIN_CLIENT_VERSION }
}

/// Every message to a client goes out in an envelope of the current protocol
/// version, numbered by the session's next sequence number; `None`, with the
/// session unchanged, once the numbers are used up.
pub fn outgoing_envelope(session: &mut Session, msg: ServerMsg) -> (r: Option<Envelope<ServerMsg>>)
    ensures
        old(session).seq == u64::MAX ==> r is None && *final(session) == *old(session),
        old(session).seq < u64::MAX ==> {
            &&& r == Some(Envelope { version: PROTOCOL_VERSION, seq: (old(session).seq + 1) as u64, payload: msg })
            &&& final(session).seq == old(session).seq + 1
            &&& final(session).buffer() == old(session).buffer()
            &&& final(session).current_room == old(session).current_room
        },
{
    if session.seq == u64::MAX {
        return None;
    }
    let seq = session.next_seq();
    Some(Envelope { version: PROTOCOL_VERSION, seq, payload: msg })
}

/// Whether a connection idle for `idle_secs` seconds is closed: when that is
/// longer than the idle timeout.
pub fn idle_expired(idle_secs: u64) -> (r: bool)
    ensures
        r == (idle_secs > IDLE_TIMEOUT_SECS),
{
    idle_secs > IDLE_TIMEOUT_SECS
}

/// Whether one more connection is accepted while `open` are being served.
pub fn admits_connection(open: usize) -> (r: bool)
    ensures
        r == (open < MAX_CONCURRENT_CONNECTIONS),
{
    open < MAX_CONCURRENT_CONNECTIONS
}

/// The registry of connected players with the slot of player `pid` held by
/// session `sid` taken out; a slot that another session holds stays.
pub open spec fn released(reg: Seq<(PlayerId, SessionId)>, pid: PlayerId, sid: SessionId) -> Seq<(PlayerId, SessionId)> {
    reg.filter(other_slot(pid, sid))
}

/// A registry entry other than the slot of `pid` held by `sid`.
pub open spec fn other_slot(pid: PlayerId, sid: SessionId) -> spec_fn((PlayerId, SessionId)) -> bool {
    |e: (PlayerId, SessionId)| !(e.0 == pid && e.1 == sid)
}

/// The registry without any slot of player `pid`.
pub open spec fn without_player(reg: Seq<(PlayerId, SessionId)>, pid: PlayerId) -> Seq<(PlayerId, SessionId)> {
    reg.filter(other_player(pid))
}

/// A registry entry of another player than `pid`.
pub open spec fn other_player(pid: PlayerId) -> spec_fn((PlayerId, SessionId)) -> bool {
    |e: (PlayerId, SessionId)| e.0 != pid
}

/// The session holding the slot of `pid` in the registry, if any (the
/// first such entry).
pub open spec fn slot_of(reg: Seq<(PlayerId, SessionId)>, pid: PlayerId) -> Option<SessionId>
    decreases reg.len(),
{
    if reg.len() == 0 {
        None
    } else if reg[0].0 == pid {
        Some(reg[0].1)
    } else {
        slot_of(reg.drop_first(), pid)
    }
}

/// Registers session `sid` as the connection of player `pid` after a
/// successful login: any slot the player held is replaced. When another
/// session held it, that session is told it was replaced (error 409), and
/// the notice for it is returned.
pub fn register_session(registry: &mut Vec<(PlayerId, SessionId)>, pid: PlayerId, sid: SessionId) -> (r: Option<
    (SessionId, ServerMsg),
>)
    ensures
        final(registry)@ == without_player(old(registry)@, pid).push((pid, sid)),
        match slot_of(old(registry)@, pid) {
            Some(prev) => if prev != sid {
                r matches Some((to, ServerMsg::Error { code, message })) && to == prev && code == 409 && message@
                    == "session replaced by another login"@
            } else {
                r is None
            },
            None => r is None,
        },
{
    let ghost f = other_player(pid);
    let mut kept: Vec<(PlayerId, SessionId)> = Vec::new();
    let mut prev: Option<SessionId> = None;
    let mut i: usize = 0;
    assert(registry@.skip(0) =~= registry@);
    while i < registry.len()
        invariant
            i <= registry@.len(),
            f == other_player(pid),
            kept@ == registry@.subrange(0, i as int).filter(f),
            slot_of(registry@, pid) == match prev {
                Some(p) => Some(p),
                None => slot_of(registry@.skip(i as int), pid),
            },
        decreases registry@.len() - i,
    {
        proof {
            assert(registry@.subrange(0, i + 1) =~= registry@.subrange(0, i as int).push(registry@[i as int]));
            registry@.subrange(0, i as int).lemma_filter_push(registry@[i as int], f);
            assert(registry@.skip(i as int)[0] == registry@[i as int]);
            assert(registry@.skip(i as int).drop_first() =~= registry@.skip(i + 1));
        }
        let e = registry[i];
        if e.0 != pid {
            kept.push(e);
        } else if prev.is_none() {
            prev = Some(e.1);
        }
        i += 1;
    }
    assert(registry@.subrange(0, i as int) =~= registry@);
    assert(registry@.skip(i as int).len() == 0);
    kept.push((pid, sid));
    *registry = kept;
    match prev {
        Some(p) => if p != sid {
            Some((p, ServerMsg::Error { code: 409, message: "session replaced by another login".to_owned() }))
        } else {
            None
        },
        None => None,
    }
}

/// What the end of connection `s` does. Without a player nothing changes and
/// nobody is told. With player `pid`: the registry slot is released if this
/// session holds it; the player leaves their room; when the room still has
/// members, each of them is told that `pid` left and, when a game in progress
/// was aborted, that the first of them wins.
pub open spec fn disconnect_outcome(
    s: Session,
    reg0: Seq<(PlayerId, SessionId)>,
    reg1: Seq<(PlayerId, SessionId)>,
    l0: LobbyManager,
    l1: LobbyManager,
    r: Seq<(PlayerId, Outgoing)>,
) -> bool {
    match s.player_id {
        None => reg1 == reg0 && lobby_same(l0, l1) && r.len() == 0,
        Some(pid) => {
            &&& reg1 == released(reg0, pid, s.session_id)
            &&& exists|res: Option<(RoomId, bool, bool)>|
                {
                    &&& left(l0, pid, res, l1)
                    &&& match res {
                        None => r.len() == 0,
                        Some(t) => {
                            let told = other_ids(members(l1, t.0), pid);
                            &&& sends(r.subrange(0, told.len() as int), told, Notice::Left(pid))
                            &&& if t.2 && told.len() > 0 {
                                sends(r.skip(told.len() as int), told, Notice::Over(GameOutcome::Win(told[0])))
                            } else {
                                r.len() == told.len()
                            }
                        },
                    }
                }
        },
    }
}

/// Takes out of `registry` the slot of `pid` that session `sid` holds.
fn release_slot(registry: &mut Vec<(PlayerId, SessionId)>, pid: PlayerId, sid: SessionId)
    ensures
        final(registry)@ == released(old(registry)@, pid, sid),
{
    let ghost f = other_slot(pid, sid);
    let mut kept: Vec<(PlayerId, SessionId)> = Vec::new();
    let mut i: usize = 0;
    while i < registry.len()
        invariant
            i <= registry@.len(),
            f == other_slot(pid, sid),
            kept@ == registry@.subrange(0, i as int).filter(f),
        decreases registry@.len() - i,
    {
        proof {
            assert(registry@.subrange(0, i + 1) =~= registry@.subrange(0, i as int).push(registry@[i as int]));
            registry@.subrange(0, i as int).lemma_filter_push(registry@[i as int], f);
        }
        let e = registry[i];
        if !(e.0 == pid && e.1 == sid) {
            kept.push(e);
        }
        i += 1;
    }
    assert(registry@.subrange(0, i as int) =~= registry@);
    *registry = kept;
}

/// Cleans up after connection `session` ended, and returns the messages for
/// the players still in its player's room (see `disconnect_outcome`).
pub fn on_disconnect(
    registry: &mut Vec<(PlayerId, SessionId)>,
    session: &Session,
    lobby: &mut LobbyManager,
) -> (r: Vec<(PlayerId, Outgoing)>)
    ensures
        disconnect_outcome(*session, old(registry)@, final(registry)@, *old(lobby), *final(lobby), r@),
{
    let pid = match session.player_id {
        Some(id) => id,
        None => {
            return Vec::new();
        },
    };
    release_slot(registry, pid, session.session_id);
    let res = lobby.leave_room(pid);
    assert(left(*old(lobby), pid, res, *lobby));
    match res {
        Some((rid, _empty, aborted)) => {
            let remaining = members_of(lobby, rid);
            let told = others(&remaining, pid);
            let mut b: Vec<(PlayerId, Outgoing)> = Vec::new();
            send_each(&mut b, &told, &Notice::Left(pid));
            assert(b@.skip(0) =~= b@);
            let ghost b1 = b@;
            if aborted && told.len() > 0 {
                let winner = told[0];
                send_each(&mut b, &told, &Notice::Over(GameOutcome::Win(winner)));
                assert(b@.subrange(0, told@.len() as int) =~= b1);
            } else {
                assert(b@.subrange(0, told@.len() as int) =~= b@);
            }
            b
        },
        None => Vec::new(),
    }
}

/// A connection replaced by a newer login of its player does not take the
/// newer connection's slot away when it ends: after the newer session is
/// registered, the older one's disconnect leaves that slot in place.
pub proof fn law_replaced_session_keeps_new_slot(
    reg: Seq<(PlayerId, SessionId)>,
    pid: PlayerId,
    new_sid: SessionId,
    old_sid: SessionId,
)
    requires
        old_sid != new_sid,
    ensures
        released(without_player(reg, pid).push((pid, new_sid)), pid, old_sid).contains((pid, new_sid)),
{
    let base = without_player(reg, pid);
    base.lemma_filter_push((pid, new_sid), other_slot(pid, old_sid));
    let r = released(base.push((pid, new_sid)), pid, old_sid);
    assert(r[r.len() - 1] == (pid, new_sid));
}

} // verus!
