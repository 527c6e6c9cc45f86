[package]
name = "mosaik"
version = "0.1.0"
edition = "2021"
publish = false

[dependencies]
anyhow = "1"
dioxus = { version = "0.6", default-features = false, features = ["macro", "html", "signals", "hooks", "launch", "document", "asset", "logger"] }
dirs = "6"
keyring = "3"
reqwest = { version = "0.12", default-features = false, features = ["json", "rustls-tls"] }
rfd = "0.15"
serde = { version = "1", features = ["derive"] }
serde_json = "1"
tokio = { version = "1", features = ["sync", "rt"] }
