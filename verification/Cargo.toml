[package]
name = "network_initializer"
version = "0.1.0"
edition = "2021"
publish = false

[dependencies]
fixedbitset = "*"
crossbeam-channel = "*"
toml = "*"
serde = { version = "*", features = ["derive"] }
