[package]
name = "imagequant"
version = "0.1.0"
edition = "2021"
publish = false

[dependencies]
fallible_collections = "*"
rgb = "*"
