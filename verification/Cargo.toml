[package]
name = "monero_keys"
version = "0.1.0"
edition = "2021"
publish = false

[dependencies]
curve25519-dalek = "=4.1.3"
sha3 = "=0.10.9"
rand_core = { version = "=0.6.4", features = ["getrandom"] }
zeroize = "=1.9.1"
monero-address = "=0.1.0"
monero-ed25519 = "=0.1.0"
mnemonic = "=1.1.1"
crc32fast = "=1.5.2"
