[package]
name = "solvency"
version = "0.1.0"
edition = "2021"
publish = false

[dependencies]
chrono = "=0.4.45"
urlencoding = "=2.1.3"
regex = "=1.13.1"
serde = { version = "=1.0.229", features = ["derive"] }
serde_json = "=1.0.154"
dotenvy = "=0.15.7"
argon2 = "0.5"
