[package]
name = "hyper_ex"
version = "0.1.0"
edition = "2021"
publish = false

[dependencies]
cookie = { version = "0.2", default-features = false }
hyper = { version = "0.7", default-features = false }
url = "0.5"
