[package]
name = "praia"
version = "0.1.0"
edition = "2021"
publish = false

[dependencies]
chrono = "*"
clap = { version = "*", features = ["derive"] }
quick_from = "*"
serde = { version = "*", features = ["derive"] }
toml = "*"
