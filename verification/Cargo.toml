[package]
name = "mavri"
version = "0.1.0"
edition = "2021"
publish = false

[dependencies]
chrono = "0.4"
num_cpus = "1"
nix = "0.20"
libc = "0.2"
