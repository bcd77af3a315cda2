[package]
name = "termii"
version = "0.1.0"
edition = "2021"
publish = false

[dependencies]
anyhow = "1"
argon2 = "0.5.3"
base64 = "0.22.1"
chacha20poly1305 = "0.10.1"
chrono = "0.4"
dirs = "6"
env_logger = "0.11"
log = "0.4"
rand = "0.8"
roxmltree = "0.20.0"
serde = { version = "1", features = ["derive"] }
serde_json = "1"
subtle = "2.6.1"
tokio = { version = "1", features = ["full"] }
uuid = { version = "1", features = ["v4"] }
vte = "0.15.0"
zeroize = "1"
