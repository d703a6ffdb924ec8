[package]
name = "rustcloak_core"
version = "0.1.0"
edition = "2021"
publish = false

[dependencies]
randstr = "*"
serde = { version = "*", features = ["derive"] }
serde_json = "*"
chrono = "*"
reqwest = { version = "*", default-features = false, features = ["blocking", "json"] }
