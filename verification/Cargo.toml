[package]
name = "smpt"
version = "0.1.0"
edition = "2021"
publish = false

[dependencies]
tiny-keccak = "=1.5.0"
ethereum-types = "=0.16.0"
rlp = "=0.6.1"
hash-db = "=0.16.0"
plain_hasher = "=0.2.3"
ewasm_api = { version = "=0.11.0", features = ["eth2"] }
bellman_ce = "=0.8.0"
pairing_ce = "=0.28.6"
