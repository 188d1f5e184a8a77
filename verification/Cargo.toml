[package]
name = "book"
version = "0.1.0"
edition = "2021"
publish = false

[dependencies]
pdf-extract = "*"
crossterm = "*"
human-panic = "*"
