[package]
name = "cached_fn"
version = "0.1.0"
edition = "2021"

[dependencies]
rustc-hash = "*"
