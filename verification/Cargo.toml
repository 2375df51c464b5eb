[package]
name = "lispjit"
version = "0.1.0"
edition = "2021"
publish = false

[dependencies]
libc = "*"
iced-x86 = "*"
