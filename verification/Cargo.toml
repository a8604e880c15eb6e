[package]
name = "diary_tui"
version = "0.1.0"
edition = "2021"
publish = false

[dependencies]
chrono = "*"
serde_json = "*"
crossterm = "*"
ratatui = "*"
directories = "*"
