[package]
name = "medulla_tui"
version = "0.1.0"
edition = "2021"
publish = false

[dependencies]
crossterm = "=0.29.0"
ratatui = "*"
serde_json = "*"
unicode-width = "*"
