[package]
name = "parque_concurrente"
version = "0.1.0"
edition = "2021"
publish = false

[dependencies]
lazy_static = "1"
queues = "1"
rand = "0.7"
std-semaphore = "0.1"
yaml-rust = "0.4"
