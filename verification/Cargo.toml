[package]
name = "static_keys"
version = "0.1.0"
edition = "2021"
publish = false

[dependencies]
libc = "*"
clear-cache = "*"
mach2 = "*"
