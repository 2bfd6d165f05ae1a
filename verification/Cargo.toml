[package]
name = "gpui_term"
version = "0.1.0"
edition = "2021"
publish = false

[dependencies]
alacritty_terminal = "0.25.1"
portable-pty = "0.9.0"
anyhow = "1"
thiserror = "2"
