[package]
name = "reantenna"
version = "0.1.0"
edition = "2021"
publish = false

[dependencies]
toml = "*"
colored = "*"
serde = { version = "*", features = ["derive"] }
serde_json = "*"
clap = { version = "*", features = ["derive"] }
reqwest = { version = "*", default-features = false, features = ["blocking"] }
