use game_center::frames::{on_frame, FrameStep};
use game_center::handler::{AuthKind, Outgoing};
use game_center::lobby::LobbyManager;
use game_center::messages::{ClientMsg, Envelope, ServerMsg};
use game_center::rate_limit::AuthRateLimiter;
use game_center::session::Session;
use game_center::tictactoe::TicTacToeMove;
use game_center::tokens::token_claims;

fn env(version: u8, payload: ClientMsg) -> Option<Envelope<ClientMsg>> {
    Some(Envelope { version, seq: 1, payload })
}

fn step(len: usize, e: Option<Envelope<ClientMsg>>) -> FrameStep {
    let mut s = Session::new();
    let mut lobby = LobbyManager::new();
    let mut limiter = AuthRateLimiter::new();
    let none: Result<TicTacToeMove, String> = Err("unused".to_string());
    on_frame(len, e, &none, 7, &mut s, &mut lobby, &mut limiter)
}

#[test]
fn oversized_frames_close_and_bad_frames_are_dropped() {
    assert!(matches!(step(65537, env(1, ClientMsg::Ping)), FrameStep::Close));
    assert!(matches!(step(10, None), FrameStep::Ignore));
}

#[test]
fn an_old_protocol_version_is_refused() {
    match step(10, env(0, ClientMsg::Ping)) {
        FrameStep::Refuse(ServerMsg::Error { code, message }) => {
            assert_eq!(code, 426);
            assert_eq!(message, "protocol version 0 too old, minimum is 1");
        }
        other => panic!("expected a refusal, got {other:?}"),
    }
}

#[test]
fn messages_are_answered_or_handed_on() {
    assert!(matches!(step(10, env(1, ClientMsg::Ping)), FrameStep::Handled(h)
        if matches!(h.response, Some(Outgoing::Msg(ServerMsg::Pong)))));
    let short = ClientMsg::Register { username: "ann".to_string(), password: "short".to_string() };
    assert!(matches!(step(10, env(1, short)), FrameStep::Handled(h)
        if matches!(h.response, Some(Outgoing::Msg(ServerMsg::AuthFail { .. })))));
    let login = ClientMsg::Login { username: "ann".to_string(), password: "secret".to_string() };
    match step(10, env(1, login)) {
        FrameStep::UserStore { kind, username, password } => {
            assert_eq!(kind, AuthKind::Login);
            assert_eq!(username, "ann");
            assert_eq!(password, "secret");
        }
        other => panic!("expected the user store, got {other:?}"),
    }
    assert!(matches!(step(10, env(1, ClientMsg::Authenticate { token: "t".to_string() })),
        FrameStep::VerifyToken(t) if t == "t"));
}

#[test]
fn token_claims_expire_after_the_configured_time() {
    let c = token_claims("user-123".to_string(), "alice".to_string(), 1_000, 7 * 24 * 3600);
    assert_eq!(c.sub, "user-123");
    assert_eq!(c.username, "alice");
    assert_eq!(c.iat, 1_000);
    assert_eq!(c.exp, 1_000 + 604_800);
}
