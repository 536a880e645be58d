[package]
name = "fastjump"
version = "0.1.0"
edition = "2021"
publish = false

[dependencies]
fuzzy-matcher = "0.3"
linked-hash-map = "0.5"
yaml-rust = "0.4"
structopt = "0.3"
