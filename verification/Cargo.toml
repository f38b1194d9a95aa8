[package]
name = "scalp"
version = "0.1.0"
edition = "2021"
publish = false

[dependencies]
regex = "=1.13.1"
termion = "=4.0.6"
orn = "*"
