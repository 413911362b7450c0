[package]
name = "cas_store"
version = "0.1.0"
edition = "2021"
publish = false

[dependencies]
sha2 = "*"
multihash = "*"
bs58 = "*"
walkdir = "*"
fs-err = "*"

[dev-dependencies]
tempfile = "*"
regex = "*"
serde_json = "*"
