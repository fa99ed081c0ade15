[package]
name = "asa"
version = "0.1.0"
edition = "2021"
publish = false

[dependencies]
unescape = "*"
clap = { version = "4", features = ["derive"] }
colored = "*"
crossterm = "*"
log = "*"
once_cell = "*"
simple_logger = "*"
