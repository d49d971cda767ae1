[package]
name = "trading_simulator"
version = "0.1.0"
edition = "2021"
publish = false

[dependencies]
alphavantage = "*"
chrono = { version = "0.4", features = ["serde"] }
serde = { version = "1", features = ["derive"] }
serde_json = "1"
thiserror = "1"
tokio = { version = "1", features = ["fs", "rt", "rt-multi-thread", "macros", "sync", "time"] }
