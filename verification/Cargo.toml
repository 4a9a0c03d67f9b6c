[package]
name = "legs"
version = "0.1.0"
edition = "2021"
publish = false

[dependencies]
ratatui = "0.29"
ansi-to-tui = "7"
arboard = { version = "3", default-features = false }
extendr-api = "*"
