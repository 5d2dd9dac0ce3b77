[package]
name = "kenshi"
version = "0.1.0"
edition = "2021"
publish = false

[dependencies]
humansize = "2"
ratatui = "0.28"
crossterm = "0.28"
clap = { version = "4", features = ["derive"] }
serde = { version = "1", features = ["derive"] }
bincode = "1"
dirs = "5"
