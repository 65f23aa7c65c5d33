[package]
name = "review-panel"
version = "0.1.0"
edition = "2021"
publish = false

[dependencies]
anyhow = "1"
base64 = "0.22"
chrono = "0.4"
crossterm = "0.28"
ratatui = "0.29"
