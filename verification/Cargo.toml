[package]
name = "grove"
version = "0.1.0"
edition = "2021"
publish = false

[dependencies]
chrono = "0.4"
clap = { version = "4", features = ["derive"] }
colored = "2"
dialoguer = { version = "0.11", features = ["fuzzy-select"] }
atty = "0.2"
dirs = "5"
serde = { version = "1", features = ["derive"] }
serde_json = "1"
