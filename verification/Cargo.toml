[package]
name = "rimeterm"
version = "0.1.0"
edition = "2021"
publish = false

[dependencies]
serde_json = "1"
ratatui = "0.29"
crossterm = "0.28"
alacritty_terminal = "0.25"
arboard = { version = "3", default-features = false }
