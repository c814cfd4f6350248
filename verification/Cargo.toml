[package]
name = "pac"
version = "0.1.0"
edition = "2021"
publish = false

[dependencies]
clap = "2"
git2 = "*"
num_cpus = "*"
yaml-rust = "0.4"
