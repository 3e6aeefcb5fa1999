[package]
name = "candela"
version = "0.1.0"
edition = "2021"
publish = false

[dependencies]
chrono = "0.4"
sunrise = "2"
clap = { version = "4", features = ["derive"] }
ctrlc = "3"
dirs = "*"
env_logger = "*"
log = "0.4"
serde = { version = "1", features = ["derive"] }
serde_json = "1"
toml = "*"
