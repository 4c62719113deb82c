[package]
name = "wiremap"
version = "0.1.0"
edition = "2021"
publish = false

[dependencies]
redis = "0.32"
syn = "2"
