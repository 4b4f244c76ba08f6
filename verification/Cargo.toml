[package]
name = "absurd_sqlite"
version = "0.1.0"
edition = "2021"
publish = false

[dependencies]
serde_json = "*"
uuid = { version = "*", features = ["v7"] }
chrono = "*"
rusqlite = { version = "*", features = ["bundled"] }
