[package]
name = "gpu_multiexp"
version = "0.1.0"
edition = "2021"
publish = false

[dependencies]
crossbeam = "0.8"
fs2 = "0.4"
log = "0.4"
num_cpus = "1"
