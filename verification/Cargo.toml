[package]
name = "block_one"
version = "0.1.0"
edition = "2021"
publish = false

[dependencies]
speedy2d = "*"
