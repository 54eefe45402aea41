[package]
name = "bedterm_core"
version = "0.1.0"
edition = "2021"
publish = false

[dependencies]
alacritty_terminal = "*"
serde = { version = "1", features = ["derive"] }
serde_json = "1"
