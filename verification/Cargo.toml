[package]
name = "tdo"
version = "0.1.0"
edition = "2021"
publish = false

[dependencies]
anyhow = "1"
clap = { version = "4", features = ["derive"] }
crossterm = "*"
is-terminal = "*"
jiff = { version = "*", features = ["serde"] }
rand = "*"
ratatui = "*"
serde = { version = "1", features = ["derive"] }
serde_yml = "*"
