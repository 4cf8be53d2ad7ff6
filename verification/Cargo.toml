[package]
name = "squad"
version = "0.1.0"
edition = "2021"
publish = false

[dependencies]
crossbeam-channel = "0.5"
crossbeam-utils = "0.8"
num_cpus = "1"
once_cell = "1"
