[package]
name = "csqtt"
version = "2.1.10"
edition = "2021"
publish = false

[dependencies]
anyhow = "1"
base64 = "0.22"
bytes = "1"
chrono = "0.4"
clap = { version = "4", features = ["derive", "env"] }
crossbeam-queue = "0.3"
dashmap = "6"
hkdf = "0.12"
libc = "0.2"
rand = "0.8"
rusqlite = { version = "0.32", features = ["bundled"] }
serde = { version = "1", features = ["derive"] }
serde_json = "1"
sha2 = "0.10"
socket2 = { version = "0.5", features = ["all"] }
tokio = { version = "1", features = ["full"] }
tokio-util = "0.7"
x25519-dalek = { version = "2", features = ["static_secrets"] }
