[package]
name = "tgt"
version = "0.1.0"
edition = "2021"
publish = false

[dependencies]
crossterm = "*"
qrcode = { version = "*", default-features = false }
ratatui = "*"
tokio = { version = "*", features = ["sync"] }
tracing = "*"
unicode-width = "*"
