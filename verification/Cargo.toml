[package]
name = "pj"
version = "0.1.0"
edition = "2021"
publish = false

[dependencies]
anyhow = "1"
chrono = "0.4"
clap = { version = "4", features = ["derive"] }
crossterm = "0.27"
dialoguer = { version = "0.11", features = ["completion"] }
dirs = "5"
serde = { version = "1", features = ["derive"] }
serde_json = "1"
skim = "0.10"
tabled = "0.15"
toml = "0.8"
