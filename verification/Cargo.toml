[package]
name = "dynamic_reshare"
version = "0.1.0"
edition = "2021"
publish = false

[dependencies]
digest = "0.10"
futures = "0.3"
generic-ec = { version = "0.4", features = ["curve-secp256k1", "serde", "udigest", "hash-to-scalar"] }
generic-ec-zkp = { version = "0.4", features = ["serde"] }
hex = { version = "0.4", features = ["serde"] }
paillier-zk = { version = "0.4", features = ["serde"] }
rand_core = { version = "0.6", features = ["getrandom"] }
round-based = { version = "0.4", features = ["derive"] }
serde = { version = "1", features = ["derive"] }
sha2 = "0.10"
thiserror = "1"
udigest = { version = "0.2", features = ["derive", "inline-struct", "digest"] }
