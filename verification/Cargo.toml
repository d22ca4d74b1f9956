[package]
name = "mayberun"
version = "0.1.0"
edition = "2021"

[dependencies]
hex = "*"
sha2 = "*"
wax = "*"
serde = { version = "*", features = ["derive"] }
serde_json = "*"
