[package]
name = "spiril"
version = "0.2.0"
edition = "2021"
publish = false

[dependencies]
crossbeam = "*"
rand = "*"

[dev-dependencies]
