[package]
name = "gsbrs"
version = "0.6.0"
edition = "2021"
publish = false

[dependencies]
url = "2"

[dev-dependencies]
quickcheck = "1"
