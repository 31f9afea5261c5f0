[package]
name = "stun_common"
version = "0.1.0"
edition = "2021"
publish = false

[dependencies]
anyhow = "1"
clap = { version = "4", features = ["derive"] }
getrandom = "0.3"
postcard = { version = "1", features = ["alloc"] }
serde = { version = "1", features = ["derive"] }
slog = "2"
slog-async = "2"
slog-term = "2"
