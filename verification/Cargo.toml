[package]
name = "recomp_net_server"
version = "0.1.0"
edition = "2021"
publish = false

[dependencies]
anyhow = "1"
axum = { version = "0.8", features = ["ws"] }
axum-prometheus = "0.8"
base64 = "0.22"
chrono = "0.4"
dotenvy = "0.15"
futures-util = "0.3"
hex = "0.4"
hmac = "0.12"
jsonwebtoken = { version = "10", default-features = false, features = ["rust_crypto"] }
libc = "0.2"
maxminddb = "0.27"
nix = { version = "0.29", features = ["net", "socket", "uio"] }
rand = "0.8"
reqwest = { version = "0.12", default-features = false, features = ["json"] }
serde = { version = "1", features = ["derive"] }
serde_json = "1"
sha1 = "0.10"
sha2 = "0.10"
socket2 = "0.5"
sqlx = { version = "0.8", default-features = false, features = ["runtime-tokio", "sqlite", "migrate"] }
thiserror = "2"
tokio = { version = "1", features = ["full"] }
toml = "0.8"
tower-http = { version = "0.6", features = ["cors", "trace"] }
tracing = "0.1"
tracing-subscriber = { version = "0.3", features = ["env-filter"] }
uuid = { version = "1", features = ["v4"] }
