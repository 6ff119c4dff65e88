[package]
name = "bellanote"
version = "0.1.0"
edition = "2021"
publish = false

[dependencies]
anyhow = "1"
chrono = "0.4"
cpal = "0.15"
hound = "3"
keyring = "3"
log = "0.4"
reqwest = { version = "0.12", default-features = false, features = ["json", "rustls-tls"] }
ringbuf = "0.3"
rusqlite = { version = "*", features = ["bundled"] }
serde = { version = "1", features = ["derive"] }
serde_json = "1"
symphonia = "0.5"
tempfile = "3"
tokio = { version = "1", features = ["rt-multi-thread", "sync", "time", "macros"] }
uuid = { version = "1", features = ["v4"] }
