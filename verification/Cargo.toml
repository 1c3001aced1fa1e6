[package]
name = "inkwell"
version = "0.1.2"
edition = "2021"
publish = false

[dependencies]
anyhow = "1"
chrono = "0.4"
clap = { version = "4", features = ["derive"] }
scraper = "*"
serde = { version = "1", features = ["derive"] }
toml = "*"
