[package]
name = "ysh"
version = "0.1.0"
edition = "2021"
publish = false

[dependencies]
aes-gcm = "0.10"
hex = "0.4"
rand = "0.9"
fluent = "0.16"
fluent-langneg = "0.13"
unic-langid = "0.9"
chrono = "0.4"
blake3 = "1"
base64 = "0.22"
serde = { version = "1", features = ["derive"] }
serde_json = "1"
toml = "0.8"
tracing = "0.1"
anyhow = "1"
axum = "0.8"
tokio = { version = "1", features = ["full"] }
ractor = "*"
redb = "*"
sled = "0.34"
zeroize = "1"
rand_core = { version = "0.6", features = ["getrandom"] }
