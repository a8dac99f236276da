[package]
name = "lotus3"
version = "0.1.0"
edition = "2021"
publish = false

[dev-dependencies]
md5 = "*"
fs-err = "*"
