[package]
name = "blockchain"
version = "0.1.0"
edition = "2021"
publish = false

[dependencies]
rust-crypto = "0.2"
bincode = "1.3"
bitcoincash-addr = "0.5"
merkle-cbt = "0.3"
rand = "0.8"
serde = { version = "1.0", features = ["derive"] }
sled = "0.34"
clap = "4"
