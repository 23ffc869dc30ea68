[package]
name = "invariant_fuzz"
version = "0.1.0"
edition = "2021"
publish = false

[dependencies]
alloy-dyn-abi = "1"
alloy-json-abi = "1"
alloy-primitives = { version = "1", features = ["rand", "getrandom"] }
alloy-sol-types = "1"
eyre = "0.6"
indicatif = "0.18"
parking_lot = "0.12"
proptest = "1"
rand = "0.9"
rayon = "1"
serde = { version = "1", features = ["derive"] }
serde_json = "1"
tokio = { version = "1", features = ["rt"] }
