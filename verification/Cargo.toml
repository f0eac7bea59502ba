[package]
name = "mesh_security"
version = "0.1.0"
edition = "2021"
publish = false

[dependencies]
cosmwasm-std = { version = "1.2", features = ["ibc3"] }
cosmwasm-schema = "1.2"
cw-storage-plus = "1.0"
thiserror = "1.0"
