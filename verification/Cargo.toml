[package]
name = "hypnos"
version = "0.1.0"
edition = "2021"
publish = false

[dependencies]
rand = "0.8"
poise = "0.5"
tokio = { version = "1", features = ["macros", "rt-multi-thread", "fs", "sync"] }
serde = { version = "1", features = ["derive"] }
serde_json = "1"
reqwest = { version = "0.11", default-features = false, features = ["json", "rustls-tls"] }
base64 = "0.21"
futures = "0.3"
