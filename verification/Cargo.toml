[package]
name = "privacy_blockchain"
version = "0.1.0"
edition = "2021"
publish = false

[dependencies]
bellman = "0.14"
blstrs = "0.7"
chrono = "0.4"
clap = "4"
ed25519-dalek = { version = "2", features = ["rand_core"] }
ed25519-zebra = "*"
env_logger = "*"
hex = "0.4"
log = "0.4"
rand = "0.8"
rand_core = { version = "0.6", features = ["getrandom"] }
sha2 = "0.10"
tokio = { version = "1", features = ["full"] }
