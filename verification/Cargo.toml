[package]
name = "privl1_crypto"
version = "0.1.0"
edition = "2021"
publish = false

[dependencies]
blake3 = "1"
hex = "0.4"
hkdf = "0.12"
pasta_curves = "0.5"
rand = "0.8"
serde = { version = "1", features = ["derive"] }
sha2 = "0.10"
subtle = "2"
thiserror = "1"
zeroize = "1"
