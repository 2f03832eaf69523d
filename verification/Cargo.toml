[package]
name = "ledger_lint"
version = "0.1.0"
edition = "2021"
publish = false

[dependencies]
clap = { version = "3", features = ["derive"] }
chrono = "0.4"
nom = "7"
regex = "1"
rust_decimal = "1"
