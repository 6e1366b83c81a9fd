[package]
name = "netwatch"
version = "0.1.0"
edition = "2021"
publish = false

[dependencies]
etherparse = "*"
crossterm = "*"
ratatui = "*"
tokio = { version = "*", features = ["rt-multi-thread", "macros"] }
