[package]
name = "floral_sync_server"
version = "0.1.3"
edition = "2021"
publish = false

[dependencies]
argon2 = "=0.5.3"
rand_core = { version = "=0.6.4", features = ["getrandom"] }
subtle = "=2.6.1"
hmac = "=0.12.1"
sha2 = "=0.10.9"
base64 = "=0.22.1"
uuid = { version = "=1.29.0", features = ["v4"] }
chrono = { version = "=0.4.45", features = ["serde"] }
serde = { version = "=1.0.229", features = ["derive"] }
serde_json = "=1.0.154"
toml = "=0.8.23"
thiserror = "=1.0.69"
axum = "=0.7.9"
tokio = { version = "=1.54.1", features = ["macros", "rt-multi-thread", "net", "sync", "time"] }
tower-http = { version = "=0.5.2", features = ["trace"] }
rusqlite = { version = "=0.31.0", features = ["bundled", "backup"] }
zip = { version = "=0.6.6", default-features = false, features = ["deflate"] }
rust-embed = { version = "=8.13.0", features = ["interpolate-folder-path"] }
mime_guess = "=2.0.5"
clap = { version = "=4.6.7", features = ["derive"] }
socket2 = "=0.5.10"
