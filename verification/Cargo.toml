[package]
name = "shallowred"
version = "0.1.0"
edition = "2021"
publish = false

[dependencies]
cozy-chess = "*"
viriformat = "2.0.1"
