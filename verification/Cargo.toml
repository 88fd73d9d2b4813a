[package]
name = "better_explosions"
version = "0.1.0"
edition = "2021"
publish = false

[dependencies]
bitcode = "*"
rand = "*"
region = "*"
