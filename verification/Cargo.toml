[package]
name = "aegis"
version = "0.1.0"
edition = "2021"
publish = false

[dependencies]
ed25519-dalek = { version = "2", features = ["rand_core"] }
sha3 = "0.10"
rand = "0.8"
rand_core = { version = "0.6", features = ["getrandom"] }
serde = { version = "1", features = ["derive"] }
serde_json = "1"
thiserror = "1"
bulletproofs = "*"
curve25519-dalek = "4"
merlin = "3"
clap = { version = "4", features = ["derive"] }
