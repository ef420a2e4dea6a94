[package]
name = "claude_vim"
version = "0.2.0"
edition = "2021"
publish = false

[dependencies]
anyhow = "1"
crossterm = "0.28"
portable-pty = "0.8"
signal-hook = "0.3"
vte = "0.13"
