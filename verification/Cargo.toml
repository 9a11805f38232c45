[package]
name = "shardmeld"
version = "0.1.0"
edition = "2021"
publish = false

[dependencies]
anyhow = "1"
bech32 = "0.9"
blake3 = "1"
clap = { version = "4", features = ["derive"] }
ed25519-dalek = { version = "2", features = ["rand_core"] }
hex = "0.4"
keyring = { version = "3", default-features = false, features = ["apple-native"] }
rand_core = { version = "0.6", features = ["getrandom"] }
rusqlite = { version = "0.32", features = ["bundled"] }
serde = { version = "1", features = ["derive"] }
serde_json = "1"
sha1 = "0.10"
sha2 = "0.10"
tempfile = "3"
ureq = "3"
url = "2"
walkdir = "2"
zeroize = "1"
