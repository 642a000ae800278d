[package]
name = "uta"
version = "0.1.0"
edition = "2021"
publish = false

[dependencies]
socket2 = "0.5"
