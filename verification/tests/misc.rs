use game_center::error::GameCenterError;
use game_center::i18n::{Language, TomlNode, Translator};
use game_center::server_config::ServerConfig;
use game_center::text::{decimal_string, replace_text, same_text};
use game_center::types::{random_bit, GameSettings, GameType, PlayerId, PlayerInfo, RoomId, SessionId};

fn version_nibble(v: u128) -> u128 {
    (v >> 76) & 0xf
}

#[test]
fn ids_are_fresh_v4_uuids() {
    let a = PlayerId::new();
    let b = PlayerId::new();
    assert_ne!(a, b);
    assert_eq!(version_nibble(a.0), 4);
    assert_eq!(version_nibble(RoomId::new().0), 4);
    assert_eq!(version_nibble(SessionId::new().0), 4);
    for _ in 0..20 {
        assert!(random_bit() < 2);
    }
}

#[test]
fn game_type_names() {
    assert_eq!(GameType::TicTacToe.display_name(), "Tic-Tac-Toe");
    assert_eq!(GameType::Connect4.display_name(), "Connect 4");
    assert_eq!(GameType::Checkers.display_name(), "Checkers");
    assert_eq!(GameType::Chess.display_name(), "Chess");
    assert_eq!(GameType::Snake.display_name(), "Snake");
    assert_eq!(GameType::BlockBreaker.display_name(), "Block Breaker");
    assert_eq!(GameType::Pacman.display_name(), "Pacman");
}

#[test]
fn default_game_settings() {
    let s = GameSettings::default();
    assert_eq!(s.max_players, 2);
    assert_eq!(s.turn_timeout_secs, Some(60));
    assert!(s.difficulty.is_none());
    assert!(s.seed.is_none());
}

#[test]
fn player_info_copy_keeps_fields() {
    let p = PlayerInfo { id: PlayerId(3), username: "zoe".to_string() };
    let q = p.copy();
    assert_eq!(q.id, PlayerId(3));
    assert_eq!(q.username, "zoe");
}

#[test]
fn error_messages() {
    let cases = [
        (GameCenterError::Codec("x".to_string()), "codec error: x"),
        (GameCenterError::AuthFailed("x".to_string()), "authentication failed: x"),
        (GameCenterError::InvalidMove("x".to_string()), "invalid move: x"),
        (GameCenterError::Room("x".to_string()), "room error: x"),
        (GameCenterError::Connection("x".to_string()), "connection error: x"),
        (GameCenterError::Database("x".to_string()), "database error: x"),
        (GameCenterError::Config("x".to_string()), "config error: x"),
    ];
    for (e, m) in cases {
        assert_eq!(e.message(), m);
    }
    let v = GameCenterError::VersionMismatch { client: 0, server_min: 12 };
    assert_eq!(v.message(), "protocol version mismatch: client=0, server_min=12");
}

#[test]
fn server_config_defaults() {
    let c = ServerConfig::default();
    assert_eq!(c.bind_addr, "0.0.0.0:8443");
    assert_eq!(c.tls.cert_path, "certs/server.crt");
    assert_eq!(c.tls.key_path, "certs/server.key");
    assert_eq!(c.auth.jwt_secret_env, "GC_JWT_SECRET");
    assert_eq!(c.auth.token_expiry_secs, 604800);
    assert_eq!(c.database.path, "gamecenter.db");
    assert_eq!(c.log_level.as_deref(), Some("info"));
}

#[test]
fn text_helpers() {
    assert_eq!(decimal_string(0), "0");
    assert_eq!(decimal_string(40213), "40213");
    assert_eq!(decimal_string(u64::MAX), "18446744073709551615");
    assert!(same_text("abc", "abc"));
    assert!(!same_text("abc", "abd"));
    assert!(!same_text("ab", "abc"));
    assert_eq!(replace_text("{0}/{1} {0}", "{0}", "7"), "7/{1} 7");
    assert_eq!(replace_text("aaa", "aa", "b"), "ba");
    assert_eq!(replace_text("none here", "{2}", "x"), "none here");
}

#[test]
fn translator_from_tree_flattens_tables() {
    let tree = vec![
        (
            "login".to_string(),
            TomlNode::Table(vec![
                ("title".to_string(), TomlNode::Text("Sign in".to_string())),
                ("count".to_string(), TomlNode::Other),
            ]),
        ),
        ("top".to_string(), TomlNode::Text("Top {0}".to_string())),
        ("top".to_string(), TomlNode::Text("Later {0}".to_string())),
    ];
    let t = Translator::from_tree(&tree, Language::French);
    assert_eq!(t.get("login.title"), "Sign in");
    assert_eq!(t.get("login.count"), "login.count");
    assert_eq!(t.get("top"), "Later {0}");
    assert_eq!(t.get_fmt("top", &["x"]), "Later x");
    assert_eq!(t.language(), Language::French);
    assert_eq!(t.keys().len(), 2);
}

#[test]
fn get_fmt_without_args_or_key() {
    let t = Translator::new(Language::English);
    assert_eq!(t.get_fmt("lobby.players", &[]), t.get("lobby.players"));
    assert_eq!(t.get_fmt("missing.{0}", &["k"]), "missing.k");
}

#[test]
fn translator_from_toml_text() {
    let text = "[login]\ntitle = \"Sign in\"\n\n[lobby]\nplayers = \"{0}/{1}\"\ncount = 3\n";
    let t = Translator::from_toml(text, Language::English);
    assert_eq!(t.get("login.title"), "Sign in");
    assert_eq!(t.get_fmt("lobby.players", &["1", "2"]), "1/2");
    assert_eq!(t.get("lobby.count"), "lobby.count");
    let broken = Translator::from_toml("= = =", Language::French);
    assert_eq!(broken.get("login.title"), "login.title");
    assert!(broken.keys().is_empty());
}

#[test]
fn language_detection_from_locale_values() {
    assert_eq!(Language::detect_from(&[None, None, None]), Language::English);
    assert_eq!(
        Language::detect_from(&[Some("en_US.UTF-8".to_string()), Some("FR_fr".to_string()), None]),
        Language::French
    );
    assert_eq!(Language::detect_from(&[Some("de_DE".to_string())]), Language::English);
    assert_eq!(Language::detect_from(&[Some("f".to_string())]), Language::English);
}
