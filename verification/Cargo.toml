[package]
name = "taiyaq_backend"
version = "0.1.0"
edition = "2021"
publish = false

[dependencies]
anyhow = "1"
axum = "0.8"
bot_sdk_line = "*"
chrono = { version = "0.4", features = ["serde"] }
dotenvy = "0.15"
enum-map = { version = "2", features = ["serde"] }
poise = "0.6"
reqwest = { version = "0.12", features = ["json"] }
serde = { version = "1", features = ["derive"] }
serde_json = "1"
strum = { version = "0.27", features = ["derive"] }
tokio = { version = "1", features = ["full"] }
tower-http = { version = "0.6", features = ["cors"] }
