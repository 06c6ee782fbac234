[package]
name = "ai_agent_bridge"
version = "0.1.0"
edition = "2021"
publish = false

[dependencies]
anyhow = "1"
async-trait = "0.1"
axum = "0.8"
azure_storage = "*"
azure_storage_blobs = "*"
base64 = "0.22"
clap = { version = "4", features = ["derive", "env"] }
dashmap = "6"
dirs = "6"
eventsource-stream = "0.2"
fd-lock = "4"
figment = { version = "0.10", features = ["toml", "env"] }
futures-util = "0.3"
hmac = "*"
reqwest = { version = "0.12", default-features = false, features = ["json", "stream", "multipart", "rustls-tls"] }
rusqlite = { version = "*", features = ["bundled"] }
serde = { version = "1", features = ["derive"] }
serde_json = "1"
sha2 = "*"
subtle = "2"
tempfile = "3"
time = "0.3"
tokio = { version = "1", features = ["full"] }
tokio-tungstenite = "*"
tokio-util = { version = "0.7", features = ["codec"] }
tracing = "0.1"
tracing-appender = "0.2"
tracing-subscriber = { version = "0.3", features = ["env-filter"] }
url = "2"
uuid = { version = "1", features = ["v4"] }
