[package]
name = "vault_storage"
version = "0.1.0"
edition = "2021"
publish = false

[dependencies]
log = "=0.4.35"
rand_core = { version = "=0.6.4", features = ["getrandom"] }
sk-cbor = "=0.1.2"
