[package]
name = "lot_ledger"
version = "0.1.0"
edition = "2021"
publish = false

[dependencies]
chrono = { version = "0.4", default-features = false, features = ["std", "serde"] }
csv = "1"
prettytable-rs = "*"
serde = { version = "1", features = ["derive"] }
term = "0.7"
