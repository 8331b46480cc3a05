[package]
name = "crust"
version = "0.1.0"
edition = "2021"
publish = false

[dependencies]
chrono = "*"
crossterm = "*"
dirs = "*"
getopts = "*"
ratatui = "*"
serde = { version = "*", features = ["derive"] }
toml = "*"
