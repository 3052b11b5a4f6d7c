//! What the server does with one frame a client sends: the decisions of the
//! connection, with the reading and writing of bytes left to the caller.
use vstd::prelude::*;
use vstd::utf8::encode_utf8;

use crate::handler::{auth_precheck, can_start, handle_client_msg, msg_outcome, precheck_done, AuthKind, HandleResult, Outgoing};
use crate::lifecycle::{message_size_ok, MAX_WS_MESSAGE_BYTES};
use crate::lobby::LobbyManager;
use crate::messages::{ClientMsg, Envelope, ServerMsg};
use crate::rate_limit::AuthRateLimiter;
use crate::session::Session;
use crate::tictactoe::TicTacToeMove;
use crate::version::{check_version, version_rejection};

verus! {

/// What the connection does after a frame.
#[derive(Debug)]
pub enum FrameStep {
    /// Close at once without an answer (the frame is over the size cap).
    Close,
    /// Nothing (the frame does not decode to a message).
    Ignore,
    /// Send this answer, then close (the protocol version is refused).
    Refuse(ServerMsg),
    /// Send the answer and deliver the messages for other players.
    Handled(HandleResult),
    /// A registration or login that passed the checks: the user store is to
    /// be consulted with these credentials.
    UserStore { kind: AuthKind, username: String, password: String },
    /// A token to verify before `authenticate_token` answers.
    VerifyToken(String),
}

/// An accepted rematch in a room that cannot start a game is a state the
/// handler does not answer (see `handle_client_msg`).
pub open spec fn rematch_startable(envelope: Option<Envelope<ClientMsg>>, s: Session, l: LobbyManager) -> bool {
    match envelope {
        Some(e) => match e.payload {
            ClientMsg::RematchResponse { accept } => (accept && s.player_id is Some && s.current_room is Some)
                ==> can_start(l, s.current_room->Some_0),
            _ => true,
        },
        None => true,
    }
}

/// What a frame of `frame_len` bytes, decoded to `envelope` (`None` when it
/// does not decode) with its game action decoded to `action`, does: the
/// session goes from `s0` to `s1`, the lobby from `l0` to `l1`, the
/// limiter's table from `t0` to `t1`, and `r` is the step.
pub open spec fn frame_outcome(
    frame_len: nat,
    envelope: Option<Envelope<ClientMsg>>,
    action: Result<TicTacToeMove, String>,
    ip: u128,
    s0: Session,
    s1: Session,
    l0: LobbyManager,
    l1: LobbyManager,
    t0: AuthRateLimiter,
    t1: AuthRateLimiter,
    r: FrameStep,
) -> bool {
    if frame_len > MAX_WS_MESSAGE_BYTES {
        r is Close && s1 == s0 && l1 == l0 && t1 == t0
    } else {
        match envelope {
            None => r is Ignore && s1 == s0 && l1 == l0 && t1 == t0,
            Some(e) => match version_rejection(e.version) {
                Some(m) => r matches FrameStep::Refuse(ServerMsg::Error { code, message }) && code == 426 && message@
                    == m && s1 == s0 && l1 == l0 && t1 == t0,
                None => match e.payload {
                    ClientMsg::Register { username, password } => auth_step(
                        AuthKind::Register,
                        username,
                        password,
                        ip,
                        t0,
                        t1,
                        r,
                    ) && s1 == s0 && l1 == l0,
                    ClientMsg::Login { username, password } => auth_step(
                        AuthKind::Login,
                        username,
                        password,
                        ip,
                        t0,
                        t1,
                        r,
                    ) && s1 == s0 && l1 == l0,
                    ClientMsg::Authenticate { token } => r == FrameStep::VerifyToken(token) && s1 == s0 && l1 == l0
                        && t1 == t0,
                    msg => r matches FrameStep::Handled(h) && msg_outcome(msg, action, s0, s1, l0, l1, h) && t1
                        == t0,
                },
            },
        }
    }
}

/// A registration or login: refused by the checks (`precheck_done`) with
/// that answer, or handed on to the user store.
pub open spec fn auth_step(
    kind: AuthKind,
    username: String,
    password: String,
    ip: u128,
    t0: AuthRateLimiter,
    t1: AuthRateLimiter,
    r: FrameStep,
) -> bool {
    exists|res: Option<ServerMsg>|
        {
            &&& #[trigger] precheck_done(kind, username@, encode_utf8(password@).len(), t0.table(), t1.table(), ip, res)
            &&& match res {
                Some(m) => r matches FrameStep::Handled(h) && h.response == Some(Outgoing::Msg(m))
                    && h.broadcasts@.len() == 0,
                None => r == (FrameStep::UserStore { kind, username, password }),
            }
        }
}

/// One frame from the client at `ip` (see `frame_outcome`): an oversized
/// frame closes the connection, one that does not decode is dropped, a
/// refused protocol version is answered with error 426 and closes, and a
/// message is otherwise answered as `handle_client_msg` does, registration,
/// login and tokens going through their checks to the user store or the
/// token verifier.
pub fn on_frame(
    frame_len: usize,
    envelope: Option<Envelope<ClientMsg>>,
    action: &Result<TicTacToeMove, String>,
    ip: u128,
    session: &mut Session,
    lobby: &mut LobbyManager,
    limiter: &mut AuthRateLimiter,
) -> (r: FrameStep)
    requires
        old(lobby).ready(),
        rematch_startable(envelope, *old(session), *old(lobby)),
    ensures
        frame_outcome(
            frame_len as nat,
            envelope,
            *action,
            ip,
            *old(session),
            *final(session),
            *old(lobby),
            *final(lobby),
            *old(limiter),
            *final(limiter),
            r,
        ),
{
    if !message_size_ok(frame_len) {
        return FrameStep::Close;
    }
    let e = match envelope {
        Some(e) => e,
        None => {
            return FrameStep::Ignore;
        },
    };
    match check_version(e.version) {
        Err(m) => {
            return FrameStep::Refuse(ServerMsg::Error { code: 426, message: m });
        },
        Ok(()) => {},
    }
    let msg = e.payload;
    match msg {
        ClientMsg::Register { username, password } => {
            let res = auth_precheck(AuthKind::Register, username.as_str(), password.as_str(), limiter, ip);
            match res {
                Some(m) => FrameStep::Handled(
                    HandleResult { response: Some(Outgoing::Msg(m)), broadcasts: Vec::new() },
                ),
                None => FrameStep::UserStore { kind: AuthKind::Register, username, password },
            }
        },
        ClientMsg::Login { username, password } => {
            let res = auth_precheck(AuthKind::Login, username.as_str(), password.as_str(), limiter, ip);
            match res {
                Some(m) => FrameStep::Handled(
                    HandleResult { response: Some(Outgoing::Msg(m)), broadcasts: Vec::new() },
                ),
                None => FrameStep::UserStore { kind: AuthKind::Login, username, password },
            }
        },
        ClientMsg::Authenticate { token } => FrameStep::VerifyToken(token),
        msg => FrameStep::Handled(handle_client_msg(&msg, action, session, lobby)),
    }
}

} // verus!
