[package]
name = "wisp"
version = "0.1.0"
edition = "2021"
publish = false

[dependencies]
serde = { version = "=1.0.229", features = ["derive"] }
serde_json = "=1.0.154"
base64 = "=0.22.1"
uuid = { version = "=1.29.0", features = ["v4"] }
tokio = { version = "=1.54.1", features = ["process", "io-util", "sync", "time", "rt", "macros"] }
tokio-util = "=0.7.20"
anyhow = "=1.0.104"
thiserror = "=1.0.69"
toml = "=0.9.12"
rusqlite = { version = "=0.41.1", features = ["bundled"] }
reqwest = { version = "=0.12.28", default-features = false, features = ["json", "native-tls"] }
futures = "=0.3.34"
async-trait = "=0.1.92"
async-openai = { version = "=0.43.0", default-features = false, features = ["chat-completion", "native-tls"] }
schemars = "=1.2.3"
image = { version = "=0.25.10", default-features = false, features = ["png", "jpeg", "gif", "webp", "bmp", "tiff"] }
