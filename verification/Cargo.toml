[package]
name = "zei"
version = "0.1.0"
edition = "2021"
publish = false

[dependencies]
pairing = "0.14"
rand = "0.4"
curve25519-dalek = "3"
sha2 = "0.10"
