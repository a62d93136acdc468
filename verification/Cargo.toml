[package]
name = "mfl_inv"
version = "0.1.0"
edition = "2021"
publish = false

[dependencies]
byteorder = "1"
anyhow = "1"
atty = "0.2"
clap = { version = "4", features = ["derive"] }
crossbeam-channel = "0.5"
memmap2 = "*"
num_cpus = "1"
rayon = "1"
