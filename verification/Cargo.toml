[package]
name = "game_center"
version = "0.1.0"
edition = "2021"
publish = false

[dependencies]
uuid = { version = "=1.29.0", features = ["v4", "serde"] }
rand = "=0.9.5"
serde = { version = "=1.0.229", features = ["derive"] }
rmp-serde = "=1.3.1"
toml = "=0.8.23"
thiserror = "=2.0.21"
argon2 = { version = "=0.5.3", features = ["std"] }
dirs = "=6.0.0"
