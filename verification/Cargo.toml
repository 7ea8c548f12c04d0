[package]
name = "oasis_chain"
version = "0.1.0"
edition = "2021"
publish = false

[dependencies]
keccak-hash = "=0.12.0"
libsecp256k1 = "=0.7.2"
rand = "=0.10.3"
x25519-dalek = { version = "=3.0.0", features = ["static_secrets"] }
chacha20poly1305 = "*"

[dev-dependencies]
rlp = "=0.6.1"
