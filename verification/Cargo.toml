[package]
name = "aggregate"
version = "0.1.0"
edition = "2021"
publish = false

[dependencies]
ron = "*"
serde = { version = "1", features = ["derive"] }
uuid = { version = "1", features = ["v7"] }
