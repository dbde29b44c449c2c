[package]
name = "buddhabrot"
version = "0.1.0"
edition = "2021"
publish = false

[dependencies]
rand = "*"
toml = "*"
image = "*"
flate2 = "*"
num_cpus = "*"
