[package]
name = "voxam-core"
version = "0.1.0"
edition = "2021"
publish = false

[dependencies]
unicode-normalization = "0.1"
getrandom = "0.3"
