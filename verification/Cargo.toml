[package]
name = "mastodon_bookmark_rss"
version = "0.1.0"
edition = "2021"
publish = false

[dependencies]
serde_json = "*"
chrono = "*"
axum = "*"
tokio = { version = "*", features = ["full"] }
reqwest = { version = "*", default-features = false }
serde = { version = "*", features = ["derive"] }
serde_urlencoded = "*"
