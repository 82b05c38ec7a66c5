[package]
name = "wayex_ledger"
version = "0.1.0"
edition = "2021"
publish = false

[dependencies]
beancount-parser = "2"
chrono = "0.4"
clap = { version = "4", features = ["derive"] }
csv = "1"
rust_decimal = "1"
serde = { version = "1", features = ["derive"] }
