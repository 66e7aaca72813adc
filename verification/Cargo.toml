[package]
name = "wooridb"
version = "0.1.0"
edition = "2021"
publish = false

[dependencies]
uuid = { version = "0.8", features = ["v4", "serde"] }
chrono = { version = "0.4", features = ["serde"] }
bcrypt = "0.9"
ron = "0.6"
serde = { version = "1.0", features = ["derive"] }
serde_json = "1.0"
