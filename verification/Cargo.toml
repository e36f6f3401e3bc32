[package]
name = "register_tool"
version = "0.1.0"
edition = "2021"
publish = false

[dependencies]
libc = "0.2"
yaml-rust = "0.4"
clap = "4"
