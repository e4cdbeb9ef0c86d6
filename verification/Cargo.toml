[package]
name = "wiring_register"
version = "0.1.0"
edition = "2021"
publish = false

[dependencies]
downcast = "*"
qdowncast = "*"
qindex_multi = "*"
