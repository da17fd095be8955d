[package]
name = "collector_lib"
version = "0.1.0"
edition = "2021"
publish = false

[dependencies]
base64 = "0.13"
clap = { version = "4", features = ["derive"] }
ed25519-dalek = "=1.0.1"
failure = "0.1"
hex = "0.4"
sha2 = "0.9"
