use game_center::auth_session::AuthSession;
use game_center::client_config::ClientConfig;
use game_center::connection::{flag_enabled, insecure_tls_enabled};
use game_center::i18n::{Language, Translator};
use game_center::snake::lcg_next;
use game_center::version::{check_version, MIN_CLIENT_VERSION, PROTOCOL_VERSION};

fn now_secs() -> i64 {
    std::time::SystemTime::now()
        .duration_since(std::time::UNIX_EPOCH)
        .unwrap()
        .as_secs() as i64
}

#[test]
fn new_session_is_unauthenticated() {
    let session = AuthSession::new();
    assert!(!session.is_authenticated());
}

#[test]
fn session_with_future_token_is_authenticated() {
    let mut session = AuthSession::new();
    let future_exp = now_secs() + 3600;
    session.set_token("tok".to_string(), future_exp, "alice".to_string());
    assert!(session.is_authenticated());
}

#[test]
fn session_with_past_token_is_not_authenticated() {
    let mut session = AuthSession::new();
    session.set_token("tok".to_string(), 1000, "bob".to_string());
    assert!(!session.is_authenticated());
}

#[test]
fn clear_removes_auth() {
    let mut session = AuthSession::new();
    let future_exp = now_secs() + 3600;
    session.set_token("tok".to_string(), future_exp, "alice".to_string());
    session.clear();
    assert!(!session.is_authenticated());
}

#[test]
fn auth_session_expiry_boundary() {
    let mut session = AuthSession::new();
    session.set_token("tok".to_string(), 500, "carol".to_string());
    assert!(session.is_authenticated_at(499));
    assert!(!session.is_authenticated_at(500));
    assert!(!session.is_authenticated_at(501));
    assert_eq!(session.username.as_deref(), Some("carol"));
    session.clear();
    assert!(session.token.is_none());
    assert!(session.username.is_none());
    assert!(!session.is_authenticated_at(0));
}

#[test]
fn default_config_values() {
    let config = ClientConfig::default();
    assert_eq!(config.server_url, "wss://localhost:8443");
    assert_eq!(config.language, "en");
    assert!(config.username.is_none());
}

#[test]
fn config_path_ends_with_config_file() {
    let p = ClientConfig::config_path();
    assert!(p.ends_with("config.toml"));
    assert!(p.starts_with(&ClientConfig::config_dir()));
    assert!(p.ends_with("/.gamecenter/config.toml"));
    assert!(ClientConfig::config_dir().ends_with("/.gamecenter"));
}

#[test]
fn insecure_tls_check_parses_1() {
    let enabled_values = ["1", "true"];
    let disabled_values = ["0", "false", "yes", ""];
    for val in &enabled_values {
        assert!(*val == "1" || *val == "true");
        assert!(flag_enabled(val));
    }
    for val in &disabled_values {
        assert!(*val != "1" && *val != "true");
        assert!(!flag_enabled(val));
    }
}

#[test]
fn insecure_tls_sources() {
    assert!(!insecure_tls_enabled(None, None, false));
    assert!(insecure_tls_enabled(Some("1"), None, false));
    assert!(insecure_tls_enabled(None, Some("true"), false));
    assert!(insecure_tls_enabled(None, None, true));
    assert!(!insecure_tls_enabled(Some("TRUE"), Some("0"), false));
}

#[test]
fn lcg_is_deterministic() {
    let mut a = 42u64;
    let mut b = 42u64;
    for _ in 0..10 {
        assert_eq!(lcg_next(&mut a), lcg_next(&mut b));
    }
}

#[test]
fn lcg_first_value() {
    let mut s = 0u64;
    assert_eq!(lcg_next(&mut s), 1442695040888963407);
    assert_eq!(s, 1442695040888963407);
    let mut t = 1u64;
    assert_eq!(
        lcg_next(&mut t),
        6364136223846793005u64.wrapping_add(1442695040888963407)
    );
}

#[test]
fn load_english() {
    let t = Translator::new(Language::English);
    assert_eq!(t.get("app.title"), "Game Center");
    assert_eq!(t.get("login.title"), "Login");
    assert_eq!(t.get("game.your_turn"), "Your turn");
}

#[test]
fn load_french() {
    let t = Translator::new(Language::French);
    assert_eq!(t.get("app.title"), "Centre de Jeux");
    assert_eq!(t.get("login.title"), "Connexion");
}

#[test]
fn format_args() {
    let t = Translator::new(Language::English);
    let result = t.get_fmt("lobby.players", &["3", "4"]);
    assert_eq!(result, "3/4 players");
}

#[test]
fn missing_key_returns_key() {
    let t = Translator::new(Language::English);
    assert_eq!(t.get("nonexistent.key"), "nonexistent.key");
}

#[test]
fn language_from_code() {
    assert_eq!(Language::from_code("fr"), Language::French);
    assert_eq!(Language::from_code("FR"), Language::French);
    assert_eq!(Language::from_code("en"), Language::English);
    assert_eq!(Language::from_code("de"), Language::English);
}

#[test]
fn all_english_keys_exist_in_french() {
    let en = Translator::new(Language::English);
    let fr = Translator::new(Language::French);
    for key in en.keys() {
        assert!(
            fr.contains_key(&key),
            "French translation missing key: {key}"
        );
    }
}

#[test]
fn language_codes_round_trip() {
    assert_eq!(Language::English.code(), "en");
    assert_eq!(Language::French.code(), "fr");
    assert_eq!(Language::from_code(Language::French.code()), Language::French);
    let t = Translator::new(Language::French);
    assert_eq!(t.language(), Language::French);
    assert!(!t.contains_key("nonexistent.key"));
}

#[test]
fn accepts_current_version() {
    assert!(check_version(PROTOCOL_VERSION).is_ok());
}

#[test]
fn rejects_old_version() {
    if MIN_CLIENT_VERSION > 0 {
        assert!(check_version(MIN_CLIENT_VERSION - 1).is_err());
    }
}

#[test]
fn version_error_message() {
    assert_eq!(
        check_version(0).unwrap_err(),
        "protocol version 0 too old, minimum is 1"
    );
    assert!(check_version(PROTOCOL_VERSION + 1).is_ok());
    assert!(check_version(255).is_ok());
}

#[test]
fn config_location_for_a_home_directory() {
    assert_eq!(ClientConfig::config_dir_for(Some("/home/ann".to_string())), "/home/ann/.gamecenter");
    assert_eq!(ClientConfig::config_path_for(Some("/home/ann".to_string())), "/home/ann/.gamecenter/config.toml");
    assert_eq!(ClientConfig::config_dir_for(None), "./.gamecenter");
    assert_eq!(ClientConfig::config_path_for(None), "./.gamecenter/config.toml");
}
