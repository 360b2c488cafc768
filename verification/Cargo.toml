[package]
name = "azac"
version = "0.1.0"
edition = "2021"
publish = false

[dependencies]
clap = { version = "*", features = ["derive"] }
directories = "*"
inquire = "*"
serde = { version = "*", features = ["derive"] }
serde_json = "*"
thiserror = "*"
toml = "*"
