[package]
name = "fspath"
version = "0.1.0"
edition = "2021"
publish = false

[dependencies]
lru = "*"
parking_lot = "*"
