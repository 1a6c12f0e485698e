[package]
name = "blockchain_rust"
version = "0.1.0"
edition = "2021"
publish = false

[dependencies]
bincode = "1.3"
bitcoincash-addr = "0.5"
clap = "4"
rust-crypto = "0.2"
sled = "0.34"
