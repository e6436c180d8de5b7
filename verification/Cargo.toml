[package]
name = "coder"
version = "0.1.0"
edition = "2021"
publish = false

[dependencies]
ropey = "1"
regex = "1"
git2 = { version = "*", default-features = false }
syntect = { version = "5", default-features = false, features = ["default-fancy"] }
serde = { version = "1", features = ["derive"] }
toml = "*"
vt100 = "*"
crossterm = "*"
ratatui = "*"
tokio = { version = "1", features = ["rt-multi-thread", "macros", "sync", "fs", "time"] }
arboard = { version = "3", default-features = false }
clap = { version = "4", features = ["derive"] }
anyhow = "1"
futures = "0.3"
notify = "*"
ignore = "*"
portable-pty = "*"
