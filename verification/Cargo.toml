[package]
name = "cargo_sweep"
version = "0.1.0"
edition = "2021"
publish = false

[dependencies]
clap = "*"
colored = "*"
num_cpus = "*"
