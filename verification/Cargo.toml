[package]
name = "replayr"
version = "0.1.0"
edition = "2021"
publish = false

[dependencies]
regex = "=1.13.1"
anyhow = "*"
async-stream = "*"
axum = { version = "*", features = ["ws"] }
bytes = "*"
chrono = "*"
clap = { version = "*", features = ["derive"] }
futures = "*"
reqwest = { version = "*", default-features = false, features = ["json", "stream"] }
serde = { version = "*", features = ["derive"] }
serde_json = "*"
tokio = { version = "*", features = ["full"] }
tower-http = { version = "*", features = ["cors"] }
uuid = { version = "*", features = ["v4"] }
