[package]
name = "blazeterm"
version = "0.1.0"
edition = "2021"
publish = false

[dependencies]
unicode-width = "*"
portable-pty = "*"
crossbeam-channel = "*"
parking_lot = "*"
anyhow = "*"
fontdue = "*"
