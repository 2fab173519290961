[package]
name = "mvbtree"
version = "0.1.0"
edition = "2021"
publish = false

[dependencies]
arc-swap = "1"
chrono = "0.4"
crossbeam-channel = "0.5"
crossbeam-skiplist = "0.1"
itertools = "0.14"
libc = "0.2"
num_cpus = "1"
parking_lot = "0.12"
rand = "0.9"
rand_distr = "0.5"
serde = { version = "1", features = ["derive"] }
serde_json = "1"
