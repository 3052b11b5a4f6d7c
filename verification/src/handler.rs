//! The server's answer to each lobby and game message of an authenticated
//! connection: what to reply, whom to notify, and how the session and the
//! lobby change. The connection task decodes the message, calls in here,
//! encodes game states and sends the results.
use vstd::prelude::*;
use vstd::string::StringSliceAdditionalSpecFns;

use crate::lobby::{
    created, finished, game_index, joined, lemma_game_index, lemma_room_index, left, room_index, started, summary_of,
    summary_view, LobbyManager,
};
use crate::i18n::lowercase;
use crate::messages::{ClientMsg, RoomSummary, ServerMsg};
use crate::password::{argon2_accepts, verify_password};
use crate::rate_limit::{attempt, AuthRateLimiter, EntryView};
use crate::room::Room;
use crate::session::Session;
use crate::tictactoe::TicTacToeMove;
use crate::turn_based::{play_outcome, turn_based_supported, GameState, TurnBasedGame};
use crate::types::{uuid_value, GameOutcome, PlayerId, PlayerInfo, RoomId, RoomState};

verus! {

/// Longest accepted user name, in characters.
pub const MAX_USERNAME_LEN: usize = 32;

/// Longest accepted password, in bytes.
pub const MAX_PASSWORD_LEN: usize = 128;

/// Shortest accepted password at registration, in bytes.
pub const MIN_PASSWORD_LEN: usize = 8;

/// Largest accepted game-action payload, in bytes.
pub const MAX_GAME_ACTION_BYTES: usize = 4096;

/// A message to send: a ready message, or a state update whose game state
/// the connection encodes.
#[derive(Debug)]
pub enum Outgoing {
    Msg(ServerMsg),
    GameState { tick: u64, state: GameState },
}

/// The reply to the sender (if any) and the messages for other players.
#[derive(Debug)]
pub struct HandleResult {
    pub response: Option<Outgoing>,
    pub broadcasts: Vec<(PlayerId, Outgoing)>,
}

/// A notice sent to several players.
#[derive(Debug)]
pub enum Notice {
    Joined(PlayerInfo),
    Left(PlayerId),
    Over(GameOutcome),
    RematchRequested,
    RematchDeclined,
    RematchCanceled,
}

/// `o` is the message for notice `n`.
pub open spec fn notice_is(n: Notice, o: Outgoing) -> bool {
    match n {
        Notice::Joined(p) => o matches Outgoing::Msg(ServerMsg::PlayerJoined(q)) && q == p,
        Notice::Left(id) => o == Outgoing::Msg(ServerMsg::PlayerLeft(id)),
        Notice::Over(out) => o == Outgoing::Msg(ServerMsg::GameOver { outcome: out }),
        Notice::RematchRequested => o == Outgoing::Msg(ServerMsg::RematchRequested),
        Notice::RematchDeclined => o == Outgoing::Msg(ServerMsg::RematchDeclined),
        Notice::RematchCanceled => o == Outgoing::Msg(ServerMsg::RematchCanceled),
    }
}

/// `b` sends notice `n` to each of `ids`, in order.
pub open spec fn sends(b: Seq<(PlayerId, Outgoing)>, ids: Seq<PlayerId>, n: Notice) -> bool {
    &&& b.len() == ids.len()
    &&& forall|i: int| 0 <= i < ids.len() ==> (#[trigger] b[i]).0 == ids[i] && notice_is(n, b[i].1)
}

/// The ids of `ps`, in order.
pub open spec fn ids(ps: Seq<PlayerInfo>) -> Seq<PlayerId> {
    ps.map_values(|p: PlayerInfo| p.id)
}

/// The ids of `ps` other than `me`, in order.
pub open spec fn other_ids(ps: Seq<PlayerInfo>, me: PlayerId) -> Seq<PlayerId> {
    ids(ps.filter(|p: PlayerInfo| p.id != me))
}

/// The session's user name, empty when it has none.
pub open spec fn name_of(s: Session) -> Seq<char> {
    match s.username {
        Some(u) => u@,
        None => Seq::empty(),
    }
}

/// The members of the room `room`, none when it does not exist.
pub open spec fn members(l: LobbyManager, room: RoomId) -> Seq<PlayerInfo> {
    match room_index(l.rooms@, room) {
        Some(i) => l.rooms@[i].players@,
        None => Seq::empty(),
    }
}

/// The session with its current room set to `room`.
pub open spec fn in_room(s: Session, room: Option<RoomId>) -> Session {
    Session { current_room: room, ..s }
}

/// The lobby's rooms, memberships and games are as before.
pub open spec fn lobby_same(l0: LobbyManager, l1: LobbyManager) -> bool {
    &&& l1.rooms@ == l0.rooms@
    &&& l1.player_rooms@ == l0.player_rooms@
    &&& l1.games@ == l0.games@
}

/// The reply is an authentication failure, "not authenticated", alone.
pub open spec fn is_not_authenticated(r: HandleResult) -> bool {
    &&& r.response matches Some(Outgoing::Msg(ServerMsg::AuthFail { reason })) && reason@ == "not authenticated"@
    &&& r.broadcasts@.len() == 0
}

/// The reply is the error `code` with `message`, alone.
pub open spec fn is_error(r: HandleResult, code: u16, message: Seq<char>) -> bool {
    &&& r.response matches Some(Outgoing::Msg(ServerMsg::Error { code: c, message: m })) && c == code && m@ == message
    &&& r.broadcasts@.len() == 0
}

/// The reply lists the rooms of `l`.
pub open spec fn lists_rooms(o: Option<Outgoing>, l: LobbyManager) -> bool {
    o matches Some(Outgoing::Msg(ServerMsg::RoomList(v))) && v@.map_values(|s: RoomSummary| summary_view(s))
        == l.rooms@.map_values(|room: Room| summary_of(room))
}

/// A room can start a game: a turn-based type needs two members.
pub open spec fn can_start(l: LobbyManager, room: RoomId) -> bool {
    room_index(l.rooms@, room) matches Some(i) ==> (turn_based_supported(l.rooms@[i].game_type)
        ==> l.rooms@[i].players@.len() >= 2)
}

fn reply(msg: ServerMsg) -> (r: HandleResult)
    ensures
        r.response == Some(Outgoing::Msg(msg)),
        r.broadcasts@.len() == 0,
{
    HandleResult { response: Some(Outgoing::Msg(msg)), broadcasts: Vec::new() }
}

fn not_authenticated() -> (r: HandleResult)
    ensures
        is_not_authenticated(r),
{
    reply(ServerMsg::AuthFail { reason: "not authenticated".to_owned() })
}

fn error_reply(code: u16, message: String) -> (r: HandleResult)
    ensures
        is_error(r, code, message@),
{
    reply(ServerMsg::Error { code, message })
}

fn nothing() -> (r: HandleResult)
    ensures
        r.response is None,
        r.broadcasts@.len() == 0,
{
    HandleResult { response: None, broadcasts: Vec::new() }
}

fn username_of(s: &Session) -> (r: String)
    ensures
        r@ == name_of(*s),
        s.username matches Some(u) ==> r == u,
{
    match &s.username {
        Some(u) => u.clone(),
        None => String::new(),
    }
}

pub(crate) fn members_of(l: &LobbyManager, room: RoomId) -> (r: Vec<PlayerInfo>)
    ensures
        r@ == members(*l, room),
{
    match l.get_room_players(room) {
        Some(ps) => ps,
        None => Vec::new(),
    }
}

fn notice_msg(n: &Notice) -> (o: Outgoing)
    ensures
        notice_is(*n, o),
{
    match n {
        Notice::Joined(p) => Outgoing::Msg(ServerMsg::PlayerJoined(p.copy())),
        Notice::Left(id) => Outgoing::Msg(ServerMsg::PlayerLeft(*id)),
        Notice::Over(out) => Outgoing::Msg(ServerMsg::GameOver { outcome: *out }),
        Notice::RematchRequested => Outgoing::Msg(ServerMsg::RematchRequested),
        Notice::RematchDeclined => Outgoing::Msg(ServerMsg::RematchDeclined),
        Notice::RematchCanceled => Outgoing::Msg(ServerMsg::RematchCanceled),
    }
}

/// The ids of `ps` other than `me`.
pub(crate) fn others(ps: &Vec<PlayerInfo>, me: PlayerId) -> (r: Vec<PlayerId>)
    ensures
        r@ == other_ids(ps@, me),
{
    let ghost f = |p: PlayerInfo| p.id != me;
    let mut r: Vec<PlayerId> = Vec::new();
    let mut i: usize = 0;
    while i < ps.len()
        invariant
            i <= ps@.len(),
            f == (|p: PlayerInfo| p.id != me),
            r@ == ids(ps@.subrange(0, i as int).filter(f)),
        decreases ps@.len() - i,
    {
        proof {
            assert(ps@.subrange(0, i + 1) =~= ps@.subrange(0, i as int).push(ps@[i as int]));
            ps@.subrange(0, i as int).lemma_filter_push(ps@[i as int], f);
        }
        if ps[i].id != me {
            r.push(ps[i].id);
            proof {
                assert(ids(ps@.subrange(0, i as int).filter(f).push(ps@[i as int])) =~= ids(
                    ps@.subrange(0, i as int).filter(f),
                ).push(ps@[i as int].id));
            }
        }
        i += 1;
    }
    assert(ps@.subrange(0, i as int) =~= ps@);
    r
}

/// The ids of `ps`.
fn all_ids(ps: &Vec<PlayerInfo>) -> (r: Vec<PlayerId>)
    ensures
        r@ == ids(ps@),
{
    let mut r: Vec<PlayerId> = Vec::new();
    let mut i: usize = 0;
    while i < ps.len()
        invariant
            i <= ps@.len(),
            r@ == ids(ps@.subrange(0, i as int)),
        decreases ps@.len() - i,
    {
        proof {
            assert(ids(ps@.subrange(0, i + 1)) =~= ids(ps@.subrange(0, i as int)).push(ps@[i as int].id));
        }
        r.push(ps[i].id);
        i += 1;
    }
    assert(ps@.subrange(0, i as int) =~= ps@);
    r
}

/// Appends notice `n` for each of `to`.
pub(crate) fn send_each(out: &mut Vec<(PlayerId, Outgoing)>, to: &Vec<PlayerId>, n: &Notice)
    ensures
        final(out)@.len() == old(out)@.len() + to@.len(),
        final(out)@.subrange(0, old(out)@.len() as int) == old(out)@,
        sends(final(out)@.skip(old(out)@.len() as int), to@, *n),
{
    let ghost start = out@.len();
    let mut i: usize = 0;
    while i < to.len()
        invariant
            i <= to@.len(),
            start == old(out)@.len(),
            out@.len() == start + i,
            out@.subrange(0, start as int) == old(out)@,
            forall|k: int| 0 <= k < i ==> (#[trigger] out@[start + k]).0 == to@[k] && notice_is(*n, out@[start + k].1),
        decreases to@.len() - i,
    {
        let m = notice_msg(n);
        out.push((to[i], m));
        assert(out@.subrange(0, start as int) =~= old(out)@);
        i += 1;
    }
    let ghost tail = out@.skip(start as int);
    assert forall|k: int| 0 <= k < to@.len() implies (#[trigger] tail[k]).0 == to@[k] && notice_is(*n, tail[k].1) by {
        assert(tail[k] == out@[start + k]);
    }
}

/// `ListRooms`: the room list, for an authenticated session.
pub open spec fn list_rooms_outcome(s: Session, l: LobbyManager, r: HandleResult) -> bool {
    if !s.authenticated {
        is_not_authenticated(r)
    } else {
        lists_rooms(r.response, l) && r.broadcasts@.len() == 0
    }
}

pub fn handle_list_rooms(session: &Session, lobby: &LobbyManager) -> (r: HandleResult)
    ensures
        list_rooms_outcome(*session, *lobby, r),
{
    if !session.authenticated {
        return not_authenticated();
    }
    let rooms = lobby.list_rooms();
    reply(ServerMsg::RoomList(rooms))
}

/// `CreateRoom`: the session's player hosts a new room and is told of it,
/// then of its game type; a refusal is an error 400 with the lobby's reason.
pub open spec fn create_room_outcome(
    s0: Session,
    s1: Session,
    l0: LobbyManager,
    l1: LobbyManager,
    game_type: crate::types::GameType,
    settings: crate::types::GameSettings,
    r: HandleResult,
) -> bool {
    match s0.player_id {
        None => is_not_authenticated(r) && s1 == s0 && lobby_same(l0, l1),
        Some(pid) => exists|host: PlayerInfo, res: Result<RoomId, String>|
            {
                &&& host.id == pid
                &&& host.username@ == name_of(s0)
                &&& created(l0, game_type, settings, host, res, l1)
                &&& match res {
                    Err(e) => is_error(r, 400, e@) && s1 == s0,
                    Ok(id) => {
                        &&& s1 == in_room(s0, Some(id))
                        &&& r.response matches Some(Outgoing::Msg(ServerMsg::RoomJoined { room_id, players, state }))
                            && room_id == id && players@ == members(l1, id) && state == RoomState::Waiting
                        &&& r.broadcasts@ == seq![
                            (pid, Outgoing::Msg(ServerMsg::RoomGameType { room_id: id, game_type })),
                        ]
                    },
                }
            },
    }
}

pub fn handle_create_room(
    session: &mut Session,
    lobby: &mut LobbyManager,
    game_type: crate::types::GameType,
    settings: crate::types::GameSettings,
) -> (r: HandleResult)
    ensures
        create_room_outcome(*old(session), *final(session), *old(lobby), *final(lobby), game_type, settings, r),
{
    let pid = match session.player_id {
        Some(id) => id,
        None => {
            return not_authenticated();
        },
    };
    let host = PlayerInfo { id: pid, username: username_of(session) };
    let ghost h = host;
    let res = lobby.create_room(game_type, settings, host);
    match res {
        Ok(room_id) => {
            session.current_room = Some(room_id);
            let players = members_of(lobby, room_id);
            let mut broadcasts: Vec<(PlayerId, Outgoing)> = Vec::new();
            broadcasts.push((pid, Outgoing::Msg(ServerMsg::RoomGameType { room_id, game_type })));
            let r = HandleResult {
                response: Some(Outgoing::Msg(ServerMsg::RoomJoined { room_id, players, state: RoomState::Waiting })),
                broadcasts,
            };
            assert(r.broadcasts@ =~= seq![(pid, Outgoing::Msg(ServerMsg::RoomGameType { room_id, game_type }))]);
            assert(created(*old(lobby), game_type, settings, h, Ok::<RoomId, String>(room_id), *lobby));
            r
        },
        Err(e) => {
            let ghost res_g = Err::<RoomId, String>(e);
            assert(created(*old(lobby), game_type, settings, h, res_g, *lobby));
            error_reply(400, e)
        },
    }
}

/// `b` sends the game state `st` at `tick` to each of `to`, in order.
pub open spec fn sends_state(b: Seq<(PlayerId, Outgoing)>, to: Seq<PlayerId>, tick: u64, st: GameState) -> bool {
    &&& b.len() == to.len()
    &&& forall|i: int| 0 <= i < to.len() ==> #[trigger] b[i] == (to[i], Outgoing::GameState { tick, state: st })
}

/// Appends the state update (`tick`, `st`) for each of `to`.
fn send_state_each(out: &mut Vec<(PlayerId, Outgoing)>, to: &Vec<PlayerId>, tick: u64, st: GameState)
    ensures
        final(out)@.len() == old(out)@.len() + to@.len(),
        final(out)@.subrange(0, old(out)@.len() as int) == old(out)@,
        sends_state(final(out)@.skip(old(out)@.len() as int), to@, tick, st),
{
    let ghost start = out@.len();
    let mut i: usize = 0;
    while i < to.len()
        invariant
            i <= to@.len(),
            start == old(out)@.len(),
            out@.len() == start + i,
            out@.subrange(0, start as int) == old(out)@,
            forall|k: int| 0 <= k < i ==> #[trigger] out@[start + k] == (to@[k], Outgoing::GameState { tick, state: st }),
        decreases to@.len() - i,
    {
        out.push((to[i], Outgoing::GameState { tick, state: st }));
        assert(out@.subrange(0, start as int) =~= old(out)@);
        i += 1;
    }
    let ghost tail = out@.skip(start as int);
    assert forall|k: int| 0 <= k < to@.len() implies #[trigger] tail[k] == (to@[k], Outgoing::GameState { tick, state: st }) by {
        assert(tail[k] == out@[start + k]);
    }
}

/// The ids of `v` other than `me`.
fn ids_except(v: &Vec<PlayerId>, me: PlayerId) -> (r: Vec<PlayerId>)
    ensures
        r@ == v@.filter(|p: PlayerId| p != me),
{
    let mut r: Vec<PlayerId> = Vec::new();
    let mut i: usize = 0;
    while i < v.len()
        invariant
            i <= v@.len(),
            r@ == v@.subrange(0, i as int).filter(|p: PlayerId| p != me),
        decreases v@.len() - i,
    {
        proof {
            assert(v@.subrange(0, i + 1) =~= v@.subrange(0, i as int).push(v@[i as int]));
            v@.subrange(0, i as int).lemma_filter_push(v@[i as int], |p: PlayerId| p != me);
        }
        if v[i] != me {
            r.push(v[i]);
        }
        i += 1;
    }
    assert(v@.subrange(0, i as int) =~= v@);
    r
}

/// `JoinRoom`: the session's player joins the room; the members already
/// there are told, the joiner learns the room's game type, and, when the
/// join filled the room and started its game, every member gets the
/// starting state. A refusal is an error 400 with the lobby's reason.
pub open spec fn join_room_outcome(
    s0: Session,
    s1: Session,
    l0: LobbyManager,
    l1: LobbyManager,
    room_id: RoomId,
    r: HandleResult,
) -> bool {
    match s0.player_id {
        None => is_not_authenticated(r) && s1 == s0 && lobby_same(l0, l1),
        Some(pid) => exists|joiner: PlayerInfo, res: Result<Vec<PlayerInfo>, String>|
            {
                &&& joiner.id == pid
                &&& joiner.username@ == name_of(s0)
                &&& joined(l0, room_id, joiner, res, l1)
                &&& match res {
                    Err(e) => is_error(r, 400, e@) && s1 == s0,
                    Ok(all) => {
                        let b = r.broadcasts@;
                        let told = other_ids(members(l0, room_id), pid);
                        let n = told.len();
                        let gt = l0.rooms@[room_index(l0.rooms@, room_id)->Some_0].game_type;
                        &&& s1 == in_room(s0, Some(room_id))
                        &&& sends(b.subrange(0, n as int), told, Notice::Joined(joiner))
                        &&& b[n as int] == (pid, Outgoing::Msg(ServerMsg::RoomGameType { room_id, game_type: gt }))
                        &&& r.response matches Some(Outgoing::Msg(ServerMsg::RoomJoined { room_id: id, players, state }))
                            && id == room_id && players@ == all@ && match game_index(l1.games@, room_id) {
                            Some(k) => state == RoomState::InProgress && sends_state(
                                b.skip(n + 1 as int),
                                ids(all@),
                                0,
                                l1.games@[k].1.state,
                            ),
                            None => state == RoomState::Waiting && b.len() == n + 1,
                        }
                    },
                }
            },
    }
}

pub fn handle_join_room(session: &mut Session, lobby: &mut LobbyManager, room_id: RoomId) -> (r: HandleResult)
    requires
        old(lobby).ready(),
    ensures
        join_room_outcome(*old(session), *final(session), *old(lobby), *final(lobby), room_id, r),
{
    let pid = match session.player_id {
        Some(id) => id,
        None => {
            return not_authenticated();
        },
    };
    proof {
        lemma_room_index(lobby.rooms@, room_id);
    }
    let before = members_of(lobby, room_id);
    let game_type = lobby.get_room_game_type(room_id);
    let joiner = PlayerInfo { id: pid, username: username_of(session) };
    let note = Notice::Joined(joiner.copy());
    let ghost j = joiner;
    let res = lobby.join_room(room_id, joiner);
    match res {
        Ok(all) => {
            let ghost all_g = all;
            session.current_room = Some(room_id);
            let mut b: Vec<(PlayerId, Outgoing)> = Vec::new();
            let told = others(&before, pid);
            send_each(&mut b, &told, &note);
            assert(b@.skip(0) =~= b@);
            let ghost n = told@.len();
            let gt = match game_type {
                Some(g) => g,
                None => {
                    assert(false);
                    crate::types::GameType::TicTacToe
                },
            };
            b.push((pid, Outgoing::Msg(ServerMsg::RoomGameType { room_id, game_type: gt })));
            assert(b@.subrange(0, n as int) =~= b@.subrange(0, n as int));
            let state = match lobby.game_state(room_id) {
                Some(st) => {
                    let ghost b1 = b@;
                    send_state_each(&mut b, &all_ids(&all), 0, st);
                    assert(b@.subrange(0, n as int) =~= b1.subrange(0, n as int));
                    assert(b@[n as int] == b1[n as int]) by {
                        assert(b@.subrange(0, b1.len() as int)[n as int] == b@[n as int]);
                    }
                    assert(b@.skip(n + 1 as int) =~= b@.skip(b1.len() as int));
                    RoomState::InProgress
                },
                None => RoomState::Waiting,
            };
            let r = HandleResult {
                response: Some(Outgoing::Msg(ServerMsg::RoomJoined { room_id, players: all, state })),
                broadcasts: b,
            };
            assert(joined(*old(lobby), room_id, j, Ok::<Vec<PlayerInfo>, String>(all_g), *lobby));
            assert(*session == in_room(*old(session), Some(room_id)));
            assert(sends(r.broadcasts@.subrange(0, n as int), other_ids(members(*old(lobby), room_id), pid), Notice::Joined(j)));
            assert(r.broadcasts@[n as int] == (pid, Outgoing::Msg(ServerMsg::RoomGameType { room_id, game_type: old(lobby).rooms@[room_index(old(lobby).rooms@, room_id)->Some_0].game_type })));
            r
        },
        Err(e) => {
            let ghost res_g = Err::<Vec<PlayerInfo>, String>(e);
            assert(joined(*old(lobby), room_id, j, res_g, *lobby));
            error_reply(400, e)
        },
    }
}

/// `LeaveRoom`: the session's player leaves their room; the other members
/// of the room the session was in are told, and, when a game was aborted,
/// told that the first of them wins; the leaver gets the room list. With no
/// room to leave the reply is an error 400.
pub open spec fn leave_room_outcome(s0: Session, s1: Session, l0: LobbyManager, l1: LobbyManager, r: HandleResult) -> bool {
    match s0.player_id {
        None => is_not_authenticated(r) && s1 == s0 && lobby_same(l0, l1),
        Some(pid) => {
            let before = match s0.current_room {
                Some(rid) => members(l0, rid),
                None => Seq::empty(),
            };
            let told = other_ids(before, pid);
            let b = r.broadcasts@;
            &&& s1 == in_room(s0, None)
            &&& exists|res: Option<(RoomId, bool, bool)>|
                {
                    &&& left(l0, pid, res, l1)
                    &&& match res {
                        None => is_error(r, 400, "not in a room"@),
                        Some(t) => {
                            &&& lists_rooms(r.response, l1)
                            &&& sends(b.subrange(0, told.len() as int), told, Notice::Left(pid))
                            &&& if t.2 && told.len() > 0 {
                                sends(b.skip(told.len() as int), told, Notice::Over(GameOutcome::Win(told[0])))
                            } else {
                                b.len() == told.len()
                            }
                        },
                    }
                }
        },
    }
}

pub fn handle_leave_room(session: &mut Session, lobby: &mut LobbyManager) -> (r: HandleResult)
    ensures
        leave_room_outcome(*old(session), *final(session), *old(lobby), *final(lobby), r),
{
    let pid = match session.player_id {
        Some(id) => id,
        None => {
            return not_authenticated();
        },
    };
    let before = match session.current_room {
        Some(rid) => members_of(lobby, rid),
        None => Vec::new(),
    };
    session.current_room = None;
    let res = lobby.leave_room(pid);
    assert(left(*old(lobby), pid, res, *lobby));
    match res {
        Some((_rid, _empty, aborted)) => {
            let told = others(&before, pid);
            let mut b: Vec<(PlayerId, Outgoing)> = Vec::new();
            send_each(&mut b, &told, &Notice::Left(pid));
            assert(b@.skip(0) =~= b@);
            let ghost b1 = b@;
            if aborted && told.len() > 0 {
                let winner = told[0];
                send_each(&mut b, &told, &Notice::Over(GameOutcome::Win(winner)));
                assert(b@.subrange(0, told@.len() as int) =~= b1);
            }
            let rooms = lobby.list_rooms();
            HandleResult { response: Some(Outgoing::Msg(ServerMsg::RoomList(rooms))), broadcasts: b }
        },
        None => error_reply(400, "not in a room".to_owned()),
    }
}

/// `GameAction`: an oversized payload is refused (413); otherwise the move
/// (decoded by the connection, or the decoder's complaint) is played in the
/// game of the session's room. A refused move is an error 400; an accepted
/// one sends the new state to the mover and the other players and, when it
/// ends the game, the outcome to every player; a finished game is closed.
pub open spec fn game_action_outcome(
    s0: Session,
    s1: Session,
    l0: LobbyManager,
    l1: LobbyManager,
    size: nat,
    action: Result<TicTacToeMove, String>,
    r: HandleResult,
) -> bool {
    &&& s1 == s0
    &&& if size > MAX_GAME_ACTION_BYTES {
        is_error(r, 413, "game action too large"@) && lobby_same(l0, l1)
    } else {
        match s0.player_id {
            None => is_not_authenticated(r) && lobby_same(l0, l1),
            Some(pid) => match s0.current_room {
                None => is_error(r, 400, "not in a room"@) && lobby_same(l0, l1),
                Some(rid) => match game_index(l0.games@, rid) {
                    None => is_error(r, 400, "no active game in this room"@) && lobby_same(l0, l1),
                    Some(k) => match action {
                        Err(e) => is_error(r, 400, "invalid move data: "@ + e@) && lobby_same(l0, l1),
                        Ok(mv) => exists|res: Result<Option<GameOutcome>, String>, g1: TurnBasedGame, lm: LobbyManager|
                            {
                                &&& play_outcome(l0.games@[k].1, pid, mv, res, g1)
                                &&& lm.rooms@ == l0.rooms@ && lm.player_rooms@ == l0.player_rooms@
                                &&& lm.games@ == l0.games@.update(k, (rid, g1))
                                &&& if g1.finished {
                                    finished(lm, rid, l1)
                                } else {
                                    lobby_same(lm, l1)
                                }
                                &&& match res {
                                    Err(e) => is_error(r, 400, e@),
                                    Ok(o) => {
                                        let told = g1.players@.filter(|p: PlayerId| p != pid);
                                        let b = r.broadcasts@;
                                        &&& r.response == Some(Outgoing::GameState { tick: g1.tick_of(), state: g1.state })
                                        &&& sends_state(b.subrange(0, told.len() as int), told, g1.tick_of(), g1.state)
                                        &&& match o {
                                            Some(out) => sends(b.skip(told.len() as int), g1.players@, Notice::Over(out)),
                                            None => b.len() == told.len(),
                                        }
                                    },
                                }
                            },
                    },
                },
            },
        }
    }
}

pub fn handle_game_action(
    session: &Session,
    lobby: &mut LobbyManager,
    size: usize,
    action: &Result<TicTacToeMove, String>,
) -> (r: HandleResult)
    requires
        old(lobby).ready(),
    ensures
        game_action_outcome(*session, *session, *old(lobby), *final(lobby), size as nat, *action, r),
{
    if size > MAX_GAME_ACTION_BYTES {
        return error_reply(413, "game action too large".to_owned());
    }
    let pid = match session.player_id {
        Some(id) => id,
        None => {
            return not_authenticated();
        },
    };
    let rid = match session.current_room {
        Some(id) => id,
        None => {
            return error_reply(400, "not in a room".to_owned());
        },
    };
    proof {
        lemma_game_index(lobby.games@, rid);
    }
    if lobby.game_state(rid).is_none() {
        return error_reply(400, "no active game in this room".to_owned());
    }
    let mv = match action {
        Ok(m) => m,
        Err(e) => {
            let mut msg = "invalid move data: ".to_owned();
            msg.append(e.as_str());
            return error_reply(400, msg);
        },
    };
    let ghost k = game_index(lobby.games@, rid)->Some_0;
    let played = lobby.play_in_room(rid, pid, mv);
    let ghost lm = *lobby;
    let (res, st, ps, fin) = match played {
        Some(t) => t,
        None => {
            assert(false);
            return nothing();
        },
    };
    let ghost g1 = lm.games@[k].1;
    let r = match &res {
        Err(e) => error_reply(400, e.clone()),
        Ok(o) => {
            let tick: u64 = match st {
                GameState::TicTacToe(t) => t.move_count as u64,
            };
            let told = ids_except(&ps, pid);
            let mut b: Vec<(PlayerId, Outgoing)> = Vec::new();
            send_state_each(&mut b, &told, tick, st);
            assert(b@.skip(0) =~= b@);
            let ghost b1 = b@;
            match o {
                Some(out) => {
                    send_each(&mut b, &ps, &Notice::Over(*out));
                    assert(b@.subrange(0, told@.len() as int) =~= b1);
                },
                None => {},
            }
            HandleResult { response: Some(Outgoing::GameState { tick, state: st }), broadcasts: b }
        },
    };
    if fin {
        lobby.finish_game(rid);
    }
    proof {
        assert(play_outcome(old(lobby).games@[k].1, pid, *mv, res, g1));
    }
    r
}

/// `RequestRematch` and `CancelRematch`: the other members of the session's
/// room get notice `n`; nothing changes.
pub open spec fn notify_outcome(s0: Session, s1: Session, l0: LobbyManager, l1: LobbyManager, n: Notice, r: HandleResult) -> bool {
    &&& s1 == s0
    &&& lobby_same(l0, l1)
    &&& match s0.player_id {
        None => is_not_authenticated(r),
        Some(pid) => match s0.current_room {
            None => is_error(r, 400, "not in a room"@),
            Some(rid) => r.response is None && sends(r.broadcasts@, other_ids(members(l0, rid), pid), n),
        },
    }
}

pub fn handle_notify_room(session: &Session, lobby: &LobbyManager, n: Notice) -> (r: HandleResult)
    ensures
        notify_outcome(*session, *session, *lobby, *lobby, n, r),
{
    let pid = match session.player_id {
        Some(id) => id,
        None => {
            return not_authenticated();
        },
    };
    let rid = match session.current_room {
        Some(id) => id,
        None => {
            return error_reply(400, "not in a room".to_owned());
        },
    };
    let ps = members_of(lobby, rid);
    let told = others(&ps, pid);
    let mut b: Vec<(PlayerId, Outgoing)> = Vec::new();
    send_each(&mut b, &told, &n);
    assert(b@.skip(0) =~= b@);
    HandleResult { response: None, broadcasts: b }
}

/// Every one of `pids`, in order, left the lobby `l0`, giving `l1`.
pub open spec fn left_all(l0: LobbyManager, pids: Seq<PlayerId>, l1: LobbyManager) -> bool
    decreases pids.len(),
{
    if pids.len() == 0 {
        lobby_same(l0, l1)
    } else {
        exists|lm: LobbyManager, res: Option<(RoomId, bool, bool)>|
            left_all(l0, pids.drop_last(), lm) && left(lm, pids.last(), res, l1)
    }
}

/// `b` gives each of `ps`, in order, the rematch acceptance and then the
/// starting state `st`.
pub open spec fn accept_pairs(b: Seq<(PlayerId, Outgoing)>, ps: Seq<PlayerId>, st: GameState) -> bool {
    &&& b.len() == 2 * ps.len()
    &&& forall|i: int|
        0 <= i < ps.len() ==> #[trigger] b[2 * i] == (ps[i], Outgoing::Msg(ServerMsg::RematchAccepted)) && b[2 * i
            + 1] == (ps[i], Outgoing::GameState { tick: 0, state: st })
}

proof fn lemma_accept_pairs_push(b: Seq<(PlayerId, Outgoing)>, ps: Seq<PlayerId>, p: PlayerId, st: GameState)
    requires
        accept_pairs(b, ps, st),
    ensures
        accept_pairs(
            b.push((p, Outgoing::Msg(ServerMsg::RematchAccepted))).push((p, Outgoing::GameState { tick: 0, state: st })),
            ps.push(p),
            st,
        ),
{
    let b2 = b.push((p, Outgoing::Msg(ServerMsg::RematchAccepted))).push((p, Outgoing::GameState { tick: 0, state: st }));
    let ps2 = ps.push(p);
    assert forall|i: int| 0 <= i < ps2.len() implies #[trigger] b2[2 * i] == (
        ps2[i],
        Outgoing::Msg(ServerMsg::RematchAccepted),
    ) && b2[2 * i + 1] == (ps2[i], Outgoing::GameState { tick: 0, state: st }) by {
        if i < ps.len() {
            assert(b2[2 * i] == b[2 * i]);
            assert(b2[2 * i + 1] == b[2 * i + 1]);
        }
    }
}

/// `RematchResponse`: on acceptance the room's next game starts and every
/// member gets the acceptance followed by the starting state (an error 500
/// when no game could start); on refusal every member is told, then every
/// member leaves the room, the session included.
pub open spec fn rematch_outcome(
    s0: Session,
    s1: Session,
    l0: LobbyManager,
    l1: LobbyManager,
    accept: bool,
    r: HandleResult,
) -> bool {
    match s0.player_id {
        None => is_not_authenticated(r) && s1 == s0 && lobby_same(l0, l1),
        Some(pid) => match s0.current_room {
            None => is_error(r, 400, "not in a room"@) && s1 == s0 && lobby_same(l0, l1),
            Some(rid) => {
                let ps = ids(members(l0, rid));
                if accept {
                    &&& s1 == s0
                    &&& started(l0, rid, l1)
                    &&& match game_index(l1.games@, rid) {
                        Some(k) => {
                            &&& r.response is None
                            &&& accept_pairs(r.broadcasts@, ps, l1.games@[k].1.state)
                        },
                        None => is_error(r, 500, "failed to start rematch"@),
                    }
                } else {
                    &&& s1 == in_room(s0, None)
                    &&& r.response is None
                    &&& sends(r.broadcasts@, ps, Notice::RematchDeclined)
                    &&& left_all(l0, ps, l1)
                }
            },
        },
    }
}

pub fn handle_rematch_response(session: &mut Session, lobby: &mut LobbyManager, accept: bool) -> (r: HandleResult)
    requires
        old(lobby).ready(),
        accept && old(session).player_id is Some ==> (old(session).current_room matches Some(rid) ==> can_start(
            *old(lobby),
            rid,
        )),
    ensures
        rematch_outcome(*old(session), *final(session), *old(lobby), *final(lobby), accept, r),
{
    let _pid = match session.player_id {
        Some(id) => id,
        None => {
            return not_authenticated();
        },
    };
    let rid = match session.current_room {
        Some(id) => id,
        None => {
            return error_reply(400, "not in a room".to_owned());
        },
    };
    let ps = members_of(lobby, rid);
    let pids = all_ids(&ps);
    if accept {
        proof {
            lemma_room_index(lobby.rooms@, rid);
        }
        lobby.start_game(rid);
        match lobby.game_state(rid) {
            Some(st) => {
                let mut b: Vec<(PlayerId, Outgoing)> = Vec::new();
                let mut i: usize = 0;
                while i < pids.len()
                    invariant
                        i <= pids@.len(),
                        accept_pairs(b@, pids@.subrange(0, i as int), st),
                    decreases pids@.len() - i,
                {
                    let ghost prev = b@;
                    b.push((pids[i], Outgoing::Msg(ServerMsg::RematchAccepted)));
                    b.push((pids[i], Outgoing::GameState { tick: 0, state: st }));
                    proof {
                        lemma_accept_pairs_push(prev, pids@.subrange(0, i as int), pids@[i as int], st);
                        assert(pids@.subrange(0, i + 1) =~= pids@.subrange(0, i as int).push(pids@[i as int]));
                    }
                    i += 1;
                }
                assert(pids@.subrange(0, i as int) =~= pids@);
                HandleResult { response: None, broadcasts: b }
            },
            None => error_reply(500, "failed to start rematch".to_owned()),
        }
    } else {
        let mut b: Vec<(PlayerId, Outgoing)> = Vec::new();
        send_each(&mut b, &pids, &Notice::RematchDeclined);
        assert(b@.skip(0) =~= b@);
        let mut i: usize = 0;
        while i < pids.len()
            invariant
                i <= pids@.len(),
                left_all(*old(lobby), pids@.subrange(0, i as int), *lobby),
            decreases pids@.len() - i,
        {
            let ghost lm = *lobby;
            let res = lobby.leave_room(pids[i]);
            proof {
                let sub = pids@.subrange(0, i + 1);
                assert(sub.drop_last() =~= pids@.subrange(0, i as int));
                assert(sub.last() == pids@[i as int]);
                assert(left(lm, sub.last(), res, *lobby));
            }
            i += 1;
        }
        assert(pids@.subrange(0, i as int) =~= pids@);
        session.current_room = None;
        HandleResult { response: None, broadcasts: b }
    }
}

/// Messages the lobby does not serve yet: not implemented (501) for an
/// authenticated session.
pub open spec fn other_outcome(s: Session, r: HandleResult) -> bool {
    if !s.authenticated {
        is_not_authenticated(r)
    } else {
        is_error(r, 501, "not yet implemented"@)
    }
}

/// What answering `msg` does (see `handle_client_msg`): the session goes
/// from `s0` to `s1`, the lobby from `l0` to `l1`, and `r` is the answer.
pub open spec fn msg_outcome(
    msg: ClientMsg,
    action: Result<TicTacToeMove, String>,
    s0: Session,
    s1: Session,
    l0: LobbyManager,
    l1: LobbyManager,
    r: HandleResult,
) -> bool {
    match msg {
        ClientMsg::Ping => r.response == Some(Outgoing::Msg(ServerMsg::Pong)) && r.broadcasts@.len() == 0
            && s1 == s0 && lobby_same(l0, l1),
        ClientMsg::ListRooms => list_rooms_outcome(s0, l0, r) && s1 == s0 && lobby_same(l0, l1),
        ClientMsg::CreateRoom { game_type, settings } => create_room_outcome(
            s0,
            s1,
            l0,
            l1,
            game_type,
            settings,
            r,
        ),
        ClientMsg::JoinRoom { room_id } => join_room_outcome(
            s0,
            s1,
            l0,
            l1,
            room_id,
            r,
        ),
        ClientMsg::LeaveRoom => leave_room_outcome(s0, s1, l0, l1, r),
        ClientMsg::GameAction { data } => game_action_outcome(
            s0,
            s1,
            l0,
            l1,
            data@.len(),
            action,
            r,
        ),
        ClientMsg::RequestRematch => notify_outcome(
            s0,
            s1,
            l0,
            l1,
            Notice::RematchRequested,
            r,
        ),
        ClientMsg::RematchResponse { accept } => rematch_outcome(
            s0,
            s1,
            l0,
            l1,
            accept,
            r,
        ),
        ClientMsg::CancelRematch => notify_outcome(
            s0,
            s1,
            l0,
            l1,
            Notice::RematchCanceled,
            r,
        ),
        _ => other_outcome(s0, r) && s1 == s0 && lobby_same(
            l0,
            l1,
        ),
    }
}

/// The answer to `msg` from the connection of `session`. The connection has
/// decoded a game action's payload into `action` (the move, or the decoder's
/// complaint); it answers registration, login and token authentication
/// itself.
pub fn handle_client_msg(
    msg: &ClientMsg,
    action: &Result<TicTacToeMove, String>,
    session: &mut Session,
    lobby: &mut LobbyManager,
) -> (r: HandleResult)
    requires
        old(lobby).ready(),
        !(msg is Register || msg is Login || msg is Authenticate),
        *msg matches ClientMsg::RematchResponse { accept } && accept && old(session).player_id is Some ==> (old(
            session,
        ).current_room matches Some(rid) ==> can_start(*old(lobby), rid)),
    ensures
        msg_outcome(*msg, *action, *old(session), *final(session), *old(lobby), *final(lobby), r),
{
    match msg {
        ClientMsg::Ping => reply(ServerMsg::Pong),
        ClientMsg::ListRooms => handle_list_rooms(session, lobby),
        ClientMsg::CreateRoom { game_type, settings } => handle_create_room(session, lobby, *game_type, *settings),
        ClientMsg::JoinRoom { room_id } => handle_join_room(session, lobby, *room_id),
        ClientMsg::LeaveRoom => handle_leave_room(session, lobby),
        ClientMsg::GameAction { data } => handle_game_action(session, lobby, data.len(), action),
        ClientMsg::RequestRematch => handle_notify_room(session, lobby, Notice::RematchRequested),
        ClientMsg::RematchResponse { accept } => handle_rematch_response(session, lobby, *accept),
        ClientMsg::CancelRematch => handle_notify_room(session, lobby, Notice::RematchCanceled),
        _ => {
            if !session.authenticated {
                not_authenticated()
            } else {
                error_reply(501, "not yet implemented".to_owned())
            }
        },
    }
}

/// Checks `can_start` for the room `room_id`.
pub fn can_start_room(lobby: &LobbyManager, room_id: RoomId) -> (r: bool)
    ensures
        r == can_start(*lobby, room_id),
{
    proof {
        lemma_room_index(lobby.rooms@, room_id);
    }
    match lobby.get_room_players(room_id) {
        Some(ps) => {
            match lobby.get_room_game_type(room_id) {
                Some(gt) => !TurnBasedGame::is_supported(gt) || ps.len() >= 2,
                None => true,
            }
        },
        None => true,
    }
}

/// Registration or login.
#[derive(Clone, Copy, Debug, PartialEq, Eq, Structural)]
pub enum AuthKind {
    Register,
    Login,
}

/// Whether a name and password have an acceptable shape: a name of 1 to
/// `MAX_USERNAME_LEN` characters, a password of at most `MAX_PASSWORD_LEN`
/// bytes, and for registration at least `MIN_PASSWORD_LEN` bytes.
pub open spec fn shape_ok(kind: AuthKind, username: Seq<char>, password_bytes: nat) -> bool {
    &&& 0 < username.len() <= MAX_USERNAME_LEN
    &&& password_bytes <= MAX_PASSWORD_LEN
    &&& kind == AuthKind::Register ==> password_bytes >= MIN_PASSWORD_LEN
}

/// Why an ill-shaped attempt is refused.
pub open spec fn shape_reason(kind: AuthKind) -> Seq<char> {
    match kind {
        AuthKind::Register => "username must be 1-32 chars, password must be 8-128 bytes"@,
        AuthKind::Login => "invalid credentials"@,
    }
}

/// The checks before the costly part of a registration or login of
/// `username` with a password of `password_bytes` bytes, the limiter's table
/// going from `t0` to `t1`: an ill-shaped attempt is refused with
/// `shape_reason` and not counted; otherwise it is counted for the address
/// and the name, and refused when over the limit; `r` is `None` to go on.
pub open spec fn precheck_done(
    kind: AuthKind,
    username: Seq<char>,
    password_bytes: nat,
    t0: Seq<EntryView>,
    t1: Seq<EntryView>,
    ip: u128,
    r: Option<ServerMsg>,
) -> bool {
    &&& !shape_ok(kind, username, password_bytes) ==> (t1 == t0 && (r matches Some(ServerMsg::AuthFail { reason })
        && reason@ == shape_reason(kind)))
    &&& shape_ok(kind, username, password_bytes) ==> exists|now: u64|
        {
            let a = #[trigger] attempt(t0, ip, lowercase(username), now);
            &&& t1 == a.1
            &&& a.0 ==> r is None
            &&& !a.0 ==> (r matches Some(ServerMsg::AuthFail { reason }) && reason@
                == "too many attempts, try again later"@)
        }
}

/// The checks before the costly part of a registration or login: an
/// ill-shaped attempt is refused with `shape_reason` (and not counted);
/// otherwise the attempt is counted by the limiter for the address and the
/// name, and refused when over the limit. `None`: go on.
pub fn auth_precheck(kind: AuthKind, username: &str, password: &str, limiter: &mut AuthRateLimiter, ip: u128) -> (r:
    Option<ServerMsg>)
    ensures
        precheck_done(
            kind,
            username@,
            password.spec_bytes().len(),
            old(limiter).table(),
            final(limiter).table(),
            ip,
            r,
        ),
{
    let name_len = username.unicode_len();
    let pw_len = password.as_bytes().len();
    let bad = match kind {
        AuthKind::Register => name_len == 0 || name_len > MAX_USERNAME_LEN || pw_len < MIN_PASSWORD_LEN || pw_len
            > MAX_PASSWORD_LEN,
        AuthKind::Login => name_len == 0 || name_len > MAX_USERNAME_LEN || pw_len > MAX_PASSWORD_LEN,
    };
    if bad {
        let reason = match kind {
            AuthKind::Register => "username must be 1-32 chars, password must be 8-128 bytes".to_owned(),
            AuthKind::Login => "invalid credentials".to_owned(),
        };
        return Some(ServerMsg::AuthFail { reason });
    }
    let ok = limiter.check_and_record(ip, username);
    if ok {
        None
    } else {
        Some(ServerMsg::AuthFail { reason: "too many attempts, try again later".to_owned() })
    }
}

/// The refusal of a login: the same for an unknown user and a wrong
/// password.
pub open spec fn is_invalid_credentials(r: Result<PlayerId, ServerMsg>) -> bool {
    r matches Err(ServerMsg::AuthFail { reason }) && reason@ == "invalid credentials"@
}

/// The login decision once the user was looked up: `lookup` holds the stored
/// id and password hash of the user, `None` for an unknown name. An unknown
/// user and a password that the stored hash does not accept are refused
/// alike; otherwise the player is the stored id, or, when that is no UUID,
/// the reply is an error 500.
pub fn check_login(lookup: &Option<(String, String)>, password: &str) -> (r: Result<PlayerId, ServerMsg>)
    ensures
        match *lookup {
            None => is_invalid_credentials(r),
            Some((id, hash)) => if !argon2_accepts(password.spec_bytes(), hash@) {
                is_invalid_credentials(r)
            } else {
                match uuid_value(id@) {
                    Some(v) => r == Ok::<PlayerId, ServerMsg>(PlayerId(v)),
                    None => r matches Err(ServerMsg::Error { code, message }) && code == 500 && message@
                        == "internal error"@,
                }
            },
        },
{
    let invalid = ServerMsg::AuthFail { reason: "invalid credentials".to_owned() };
    match lookup {
        None => Err(invalid),
        Some((id, hash)) => {
            if !verify_password(password, hash.as_str()) {
                return Err(invalid);
            }
            match PlayerId::parse(id.as_str()) {
                Some(pid) => Ok(pid),
                None => Err(ServerMsg::Error { code: 500, message: "internal error".to_owned() }),
            }
        },
    }
}

/// A successful registration, login or token check: the session is
/// authenticated as `player_id` named `username`, and the reply carries the
/// token.
pub fn auth_accepted(session: &mut Session, player_id: PlayerId, username: String, token: String, expires_at: i64) -> (r:
    ServerMsg)
    ensures
        final(session).player_id == Some(player_id),
        final(session).username == Some(username),
        final(session).authenticated,
        final(session).current_room == old(session).current_room,
        final(session).seq == old(session).seq,
        r == (ServerMsg::AuthOk { token, expires_at, player_id }),
{
    session.authenticate(player_id, username);
    ServerMsg::AuthOk { token, expires_at, player_id }
}

/// The reply when storing a new user failed: a taken name is refused, any
/// other failure is an error 500.
pub fn register_store_failure(name_taken: bool) -> (r: ServerMsg)
    ensures
        name_taken ==> (r matches ServerMsg::AuthFail { reason } && reason@ == "username already taken"@),
        !name_taken ==> (r matches ServerMsg::Error { code, message } && code == 500 && message@
            == "failed to create user"@),
{
    if name_taken {
        ServerMsg::AuthFail { reason: "username already taken".to_owned() }
    } else {
        ServerMsg::Error { code: 500, message: "failed to create user".to_owned() }
    }
}

/// Token authentication, once the token was checked: `claims` is the
/// checker's complaint, or the subject as a player id (`None` when it is not
/// one), the user name and the expiry. A valid token authenticates the
/// session.
pub fn authenticate_token(
    session: &mut Session,
    token: String,
    claims: Result<(Option<PlayerId>, String, i64), String>,
) -> (r: ServerMsg)
    ensures
        match claims {
            Err(reason) => r == (ServerMsg::AuthFail { reason }) && *final(session) == *old(session),
            Ok((None, _, _)) => r matches ServerMsg::AuthFail { reason } && reason@ == "malformed token subject"@
                && *final(session) == *old(session),
            Ok((Some(pid), name, exp)) => {
                &&& r == (ServerMsg::AuthOk { token, expires_at: exp, player_id: pid })
                &&& final(session).player_id == Some(pid)
                &&& final(session).username == Some(name)
                &&& final(session).authenticated
                &&& final(session).current_room == old(session).current_room
            },
        },
{
    match claims {
        Err(reason) => ServerMsg::AuthFail { reason },
        Ok((None, _, _)) => ServerMsg::AuthFail { reason: "malformed token subject".to_owned() },
        Ok((Some(pid), name, exp)) => auth_accepted(session, pid, name, token, exp),
    }
}

} // verus!
