[package]
name = "logx"
version = "0.1.0"
edition = "2021"
publish = false

[dependencies]
chrono = "0.4"
regex = "1"
serde_json = "1"
colored = "2"
clap = { version = "4", features = ["derive"] }
crossterm = "0.28"
ratatui = "0.29"
