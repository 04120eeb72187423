[package]
name = "chess_engine"
version = "0.1.0"
edition = "2021"
publish = false

[dependencies]
sqlite = "=0.37.4"
threadpool = "=1.8.1"
num_cpus = "=1.17.0"
