[package]
name = "unionize_testbench"
version = "0.1.0"
edition = "2021"
publish = false

[dependencies]
unionize = "*"
rand = "*"
rand_chacha = "*"
serde = "*"
csv = "*"
