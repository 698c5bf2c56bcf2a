[package]
name = "discord_recorder"
version = "0.1.0"
edition = "2021"
publish = false

[dependencies]
audiopus = "=0.3.0-rc.0"
chrono = "=0.4.45"
clap = { version = "4", features = ["derive", "env"] }
dotenvy = "0.15"
ogg = "=0.9.2"
serenity = { version = "0.12", default-features = false, features = ["cache", "client", "gateway", "model", "rustls_backend"] }
songbird = { version = "0.6", default-features = false, features = ["gateway", "receive", "rustls", "serenity"] }
tokio = { version = "1", features = ["macros", "rt-multi-thread", "signal", "sync"] }
