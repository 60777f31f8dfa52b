[package]
name = "backtester"
version = "0.1.0"
edition = "2021"
publish = false

[dependencies]
chrono = "0.4"
uuid = { version = "1", features = ["v5"] }
snowflake = "1"
csv = "1"
serde = { version = "1", features = ["derive"] }
