[package]
name = "ed25519_keygen"
version = "0.1.0"
edition = "2021"

[dependencies]
getrandom = "0.2"
