[package]
name = "nullspace_execution"
version = "0.1.0"
edition = "2021"
publish = false

[dependencies]
commonware-cryptography = "*"
