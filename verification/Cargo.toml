[package]
name = "session_tracker"
version = "0.1.0"
edition = "2021"
publish = false

[dependencies]
chrono = "*"
log = "*"
serde = { version = "*", features = ["derive"] }
serde_json = "*"
strum_macros = "*"
