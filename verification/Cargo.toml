[package]
name = "gpu_allocator"
version = "0.1.0"
edition = "2021"
publish = false

[dependencies]
ash = "0.32"
backtrace = "0.3"
log = "0.4"
