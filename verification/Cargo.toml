[package]
name = "snapshot_service"
version = "0.1.0"
edition = "2021"
publish = false

[dependencies]
snap = "1"
tiny-keccak = { version = "2", features = ["keccak"] }
rand = "0.8"
