[package]
name = "csv-validator-core"
version = "0.1.0"
edition = "2021"
publish = false

[dependencies]
aho-corasick = "1"
bytecount = "0.6"
memchr = "2"
rayon = "1"
crossbeam-channel = "0.5"
clap = { version = "4", features = ["derive"] }
serde = { version = "1", features = ["derive"] }
serde_yaml = "0.9"
anyhow = "1"
num_cpus = "1"
memmap2 = "0.9"
pyo3 = { version = "0.22", features = ["abi3-py38"] }
