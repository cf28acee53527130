[package]
name = "yazelix_screen"
version = "0.1.0"
edition = "2021"
publish = false

[dependencies]
crossterm = "0.29"
signal-hook = "0.3"
