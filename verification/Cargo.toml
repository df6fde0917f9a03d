[package]
name = "rustpad_server"
version = "0.1.0"
edition = "2021"
publish = false

[dependencies]
operational-transform = { version = "0.6", features = ["serde"] }
serde = { version = "1", features = ["derive"] }
serde_json = "1"
anyhow = "1"
log = "0.4"
rand = "0.8"
futures = "0.3"
parking_lot = "0.12"
dashmap = "5"
tokio = { version = "1", features = ["full"] }
warp = "0.3"
sqlx = { version = "0.7", default-features = false, features = ["runtime-tokio-rustls", "sqlite", "macros"] }
