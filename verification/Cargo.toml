[package]
name = "habitron"
version = "0.1.0"
edition = "2021"
publish = false

[dependencies]
anyhow = "1"
chrono = "=0.4.45"
dotenvy = "0.15"
notify = "=8.2.0"
rand = "=0.9.5"
rusqlite = { version = "=0.40.2", features = ["bundled"] }
serde = { version = "1", features = ["derive"] }
tokio = { version = "1", features = ["rt", "rt-multi-thread", "sync", "time", "macros"] }
