[package]
name = "pedersen_vss"
version = "0.1.0"
edition = "2021"
publish = false

[dependencies]
aead = "0.5"
aes-gcm = "0.10"
bincode = "1"
blake2b_simd = "1"
curve25519-dalek = { version = "4", features = ["rand_core"] }
hkdf = "0.12"
rand_core = { version = "0.6", features = ["getrandom"] }
schnorrkel = "0.11"
serde = { version = "1", features = ["derive"] }
sha2 = "0.10"
