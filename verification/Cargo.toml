[package]
name = "glyphnet"
version = "0.1.0"
edition = "2021"
publish = false

[dependencies]
crc32fast = "1"
blake3 = "1"
reed-solomon-erasure = "6"
ed25519-dalek = "2"
image = { version = "0.25", default-features = false, features = ["png"] }
serde = { version = "1", features = ["derive"] }
serde_json = "1"
clap = { version = "4", features = ["derive"] }
anyhow = "1"
thiserror = "2"
rand = "0.8"
time = { version = "0.3", features = ["parsing", "formatting"] }
