[package]
name = "heineos"
version = "0.1.0"
edition = "2021"
publish = false

[dependencies]
tar-no-std = "*"
log = "*"
bitflags = "*"
