[package]
name = "sshh"
version = "0.1.0"
edition = "2021"
publish = false

[dependencies]
home = "*"
clap = { version = "*", features = ["derive"] }
crossterm = "*"
ctrlc = "*"
ratatui = "*"
