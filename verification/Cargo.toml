[package]
name = "blockchain_rust"
version = "0.1.0"
edition = "2021"
publish = false

[dependencies]
sha2 = "0.10"
bs58 = "*"
bitcoin_hashes = "*"
ed25519-dalek = { version = "2", features = ["rand_core"] }
rand_core = { version = "0.6", features = ["getrandom"] }
serde = { version = "1", features = ["derive"] }
bincode = "1"
sled = "0.34"
clap = "4"
