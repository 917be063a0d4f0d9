[package]
name = "pnmseam"
version = "0.1.0"
edition = "2021"
publish = false

[dependencies]
image = { version = "*", default-features = false, features = ["png", "pnm"] }
crossbeam = "*"
num_cpus = "*"
num-traits = "*"
clap = "*"
