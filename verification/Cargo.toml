[package]
name = "tui_rogue"
version = "0.1.0"
edition = "2021"
publish = false

[dependencies]
rand = "0.8"
serde = { version = "1", features = ["derive"] }
bincode = "1"
crossterm = "0.28"
ratatui = "0.29"
