[package]
name = "rustneat"
version = "0.1.0"
edition = "2021"
publish = false

[dependencies]
indexmap = { version = "1", features = ["serde-1"] }
rand = "0.6"
rulinalg = "0.4"
serde = { version = "1", features = ["derive"] }
serde_derive = "1"
