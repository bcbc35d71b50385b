[package]
name = "p2p_share"
version = "0.1.0"
edition = "2021"
publish = false

[dependencies]
anyhow = "*"
base64 = "*"
blake3 = "*"
clap = { version = "*", features = ["derive"] }
data-encoding = "*"
indicatif = "*"
petname = "*"
qrcodegen = "*"
rand = "*"
serde = { version = "*", features = ["derive"] }
serde_json = "*"
snow = "*"
tokio = { version = "*", features = ["full"] }
