[package]
name = "xirtam"
version = "0.1.0"
edition = "2021"
publish = false

[dependencies]
base64 = "0.22"
bcs = "0.1"
blake3 = { version = "1", features = ["pure"] }
chacha20 = "0.9"
chacha20poly1305 = "0.10"
ed25519-dalek = "2"
equix = "0.2"
novasmt = "*"
rand = "0.8"
serde = { version = "1", features = ["derive"] }
serde_json = "1"
subtle = "2"
x25519-dalek = { version = "2", features = ["static_secrets"] }
anyhow = "1"
