pub mod types;
pub mod random;
pub mod text;
pub mod version;
pub mod error;
pub mod messages;
pub mod clock;
pub mod session;
pub mod auth_session;
pub mod client_config;
pub mod server_config;
pub mod rate_limit;
pub mod i18n;
pub mod chess;
pub mod snake;
pub mod checkers;
pub mod tictactoe;
pub mod connect4;
pub mod turn_based;
pub mod room;
pub mod lobby;
pub mod blockbreaker;
pub mod connection;
pub mod handler;
pub mod lifecycle;
pub mod frames;
pub mod tokens;
pub mod password;
pub mod client_app;
pub mod terminal_fit;
pub mod history;
pub mod snake_delta;
pub mod client_input;
