[package]
name = "regula"
version = "0.1.0"
edition = "2021"
publish = false

[dependencies]
branches = "*"
memmap2 = "*"
unicode-ident = "1"
