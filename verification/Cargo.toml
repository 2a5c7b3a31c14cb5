[package]
name = "ghostport"
version = "0.1.0"
edition = "2021"
publish = false

[dependencies]
base64 = "0.22"
clap = { version = "4", features = ["derive"] }
crossterm = "0.28"
cybercore = "*"
ratatui = "0.29"
regex = "1"
serde = { version = "1", features = ["derive"] }
serde_json = "1"
sha2 = "0.10"
snow = "0.9.6"
snowstorm = "0.4.0"
tokio = { version = "1", features = ["full"] }
toml = "0.8"
