[package]
name = "bad_ascii"
version = "0.1.0"
edition = "2021"
publish = false

[dependencies]
artem = { version = "*", default-features = false }
image = { version = "*", default-features = false }
crossterm = "*"
