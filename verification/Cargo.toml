[package]
name = "en_croissant"
version = "0.1.0"
edition = "2021"
publish = false

[dependencies]
axum = { version = "0.6", features = ["ws"] }
chrono = "0.4"
dashmap = "5"
derivative = "2"
futures = "0.3"
futures-util = "0.3"
log = "0.4"
reqwest = { version = "0.11", default-features = false, features = ["stream"] }
serde = { version = "1", features = ["derive"] }
serde_json = "1"
sysinfo = "0.29"
tokio = { version = "1", features = ["full"] }
zip = { version = "0.6", default-features = false, features = ["deflate"] }
