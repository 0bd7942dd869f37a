[package]
name = "light_rpc"
version = "0.1.0"
edition = "2021"
publish = false

[dependencies]
bs58 = "*"
serde = { version = "*", features = ["derive"] }
serde_json = "*"
csv = "*"
