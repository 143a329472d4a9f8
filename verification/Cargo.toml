[package]
name = "accounting"
version = "0.1.0"
edition = "2021"
publish = false

[dependencies]
iban = "*"
serde = { version = "*", features = ["derive"] }
serde_json = "*"
csv = "*"
clap = { version = "*", features = ["derive"] }
