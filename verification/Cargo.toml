[package]
name = "zk_range_proofs"
version = "0.1.0"
edition = "2021"
publish = false

[dependencies]
curv-kzen = "=0.10.0"
kzen-paillier = "=0.4.3"
sha2 = "=0.9.9"
zeroize = "=1.9.1"
serde = { version = "=1.0.229", features = ["derive"] }
log = "=0.4.34"
