[package]
name = "path_tracer"
version = "0.1.0"
edition = "2021"
publish = false

[dependencies]
rand = "0.7"
num_cpus = "1"
crossbeam-utils = "0.8"
image = { version = "0.23", default-features = false, features = ["png"] }
