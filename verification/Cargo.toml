[package]
name = "flock"
version = "0.2.0"
edition = "2021"
publish = false

[dependencies]
crossbeam = "0.8"
either = "1"
num_cpus = "1"
rand = "0.8"
