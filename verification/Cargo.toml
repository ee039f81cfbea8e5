[package]
name = "ghostxt"
version = "0.1.0"
edition = "2021"
publish = false

[dependencies]
ropey = "1"
unicode-width = "0.2"
crossterm = "0.28"
anyhow = "1"
tempfile = "3"
