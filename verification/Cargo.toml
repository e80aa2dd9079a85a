[package]
name = "reax"
version = "0.1.0"
edition = "2021"
publish = false

[dependencies]
x25519-dalek = { version = "2", features = ["static_secrets"] }
aes-gcm-siv = "0.11"
base64ct = { version = "1", features = ["alloc"] }
rand = "0.8"
tokio = { version = "1", features = ["rt-multi-thread", "sync", "time", "macros"] }
serde = { version = "1", features = ["derive"] }
serde_json = "1"
bincode = "1"
reqwest = { version = "0.11", default-features = false, features = ["json"] }
sqlx = { version = "0.6", default-features = false, features = ["sqlite", "runtime-tokio-rustls", "json", "macros", "migrate"] }
tokio-tungstenite = "0.20"
futures-util = { version = "0.3", features = ["sink"] }
once_cell = "1"
chrono = { version = "0.4", features = ["serde"] }
itertools = "0.11"
