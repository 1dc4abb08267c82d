[package]
name = "raspberry_pos"
version = "0.1.0"
edition = "2021"
publish = false

[dependencies]
dirs = "*"
lazy_static = "*"
