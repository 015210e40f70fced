[package]
name = "character_guessr"
version = "0.1.0"
edition = "2021"
publish = false

[dependencies]
chrono = "0.4"
serde = { version = "1", features = ["derive"] }
serde_json = "1"
rand = "*"
tokio = { version = "1", features = ["rt-multi-thread", "macros", "sync", "time", "net"] }
axum = "*"
socketioxide = "*"
rusqlite = { version = "*", features = ["bundled"] }
r2d2 = "*"
r2d2_sqlite = "*"
dashmap = "*"
anyhow = "1"
tracing = "0.1"
tracing-subscriber = "0.3"
tower-http = { version = "*", features = ["cors"] }
lazy_static = "1"
reqwest = { version = "*", default-features = false, features = ["rustls-tls"] }
image = { version = "*", default-features = false, features = ["webp", "png", "jpeg"] }
tantivy = "*"
