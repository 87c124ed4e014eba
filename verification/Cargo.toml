[package]
name = "ledger"
version = "0.1.0"
edition = "2021"
publish = false

[dependencies]
bincode = "2"
bs58 = "0.5"
clap = { version = "4", features = ["derive"] }
ring = "0.17"
ripemd = "0.1"
rusty-leveldb = "1"
sha2 = "0.10"
