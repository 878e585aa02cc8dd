[package]
name = "cmg"
version = "0.1.0"
edition = "2021"
publish = false

[dependencies]
rand = "*"
serde = { version = "*", features = ["derive"] }
schemars = "0.8"
dropshot = "*"
tokio = { version = "*", features = ["rt-multi-thread", "macros"] }
semver = "*"
