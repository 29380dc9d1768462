[package]
name = "solcli"
version = "0.1.0"
edition = "2021"
publish = false

[dependencies]
base64 = "=0.13.1"
bincode = "=1.3.3"
bs58 = "=0.4.0"
clap = { version = "=4.4.18", features = ["derive"] }
ed25519-dalek = "=1.0.1"
solana-sdk = "=1.18.26"
