[package]
name = "license_gen"
version = "0.1.0"
edition = "2021"
publish = false

[dependencies]
dialoguer = { version = "=0.12.0", features = ["fuzzy-select"] }
