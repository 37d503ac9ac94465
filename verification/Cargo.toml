[package]
name = "sedit"
version = "0.1.0"
edition = "2021"
publish = false

[dependencies]
regex = "1"
ratatui = { version = "0.29", features = ["unstable-rendered-line-info"] }
crossterm = "0.28"
