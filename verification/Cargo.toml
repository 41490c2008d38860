[package]
name = "orrient"
version = "0.1.0"
edition = "2021"
publish = false

[dependencies]
chrono = "*"
flate2 = "*"
tui = "*"
reqwest = { version = "*", default-features = false, features = ["blocking"] }
ron = "*"
serde = { version = "*", features = ["derive"] }
serde_json = "*"
serde_yaml = "*"
