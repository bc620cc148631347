[package]
name = "usvg_flatten"
version = "0.1.0"
edition = "2021"
publish = false

[dependencies]
usvg = "0.46"
resvg = "0.46"
thiserror = "2"
uniffi = "*"
