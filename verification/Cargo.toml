[package]
name = "currency_conversions"
version = "0.1.0"
edition = "2021"
publish = false

[dependencies]
chrono = { version = "*", features = ["serde"] }
clap = { version = "*", features = ["derive"] }
csv = "*"
serde = { version = "*", features = ["derive"] }
