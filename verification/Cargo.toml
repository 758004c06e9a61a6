[package]
name = "event_game_lang"
version = "0.1.0"
edition = "2021"
publish = false

[dependencies]
rayon = "1"
serde = { version = "1", features = ["derive"] }
serde_json = "1"
tokio = { version = "1", features = ["macros", "rt-multi-thread", "sync", "net"] }
tokio-stream = { version = "0.1", features = ["sync"] }
axum = "0.7"
