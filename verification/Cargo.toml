[package]
name = "sdit_core"
version = "0.1.0"
edition = "2021"
publish = false

[dependencies]
unicode-width = "0.2"
vte = "0.13"
regex = "1"
serde = { version = "1", features = ["derive"] }
toml = "0.8"
dirs = "5"
log = "0.4"
thiserror = "2"
pty-process = "0.5"
rustix = { version = "1", features = ["termios", "process"] }
anyhow = "1"
