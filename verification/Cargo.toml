[package]
name = "key_refresh"
version = "0.1.0"
edition = "2021"
publish = false

[dependencies]
generic-ec = { version = "=0.5.2", features = ["curve-secp256k1"] }
generic-ec-zkp = "=0.5.0"
libpaillier = { version = "*", default-features = false, features = ["rust"] }
sha2 = "=0.10.9"
rand_core = { version = "=0.6.4", features = ["getrandom"] }
