[package]
name = "survi_launcher"
version = "0.1.0"
edition = "2021"
publish = false

[dependencies]
serde = { version = "1", features = ["derive"] }
serde_json = "1"
hex = "0.4"
sha1 = "0.10"
sha2 = "0.10"
hmac = "0.12"
uuid = { version = "1", features = ["v3"] }
base64 = "0.22"
url = "2"
reqwest = { version = "0.12", default-features = false, features = ["json", "stream"] }
tokio = { version = "1", features = ["fs", "process", "io-util", "sync", "rt", "macros"] }
futures = "0.3"
anyhow = "1"
rusqlite = { version = "*", features = ["bundled"] }
discord-rich-presence = "*"
