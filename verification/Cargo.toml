[package]
name = "avm_core"
version = "0.1.0"
edition = "2021"
publish = false

[dependencies]
url = "*"
flash-lso = "*"
