[package]
name = "parking_lot"
version = "0.12.0"
edition = "2021"
publish = false

[dependencies]
backtrace = "0.3"
libc = "0.2"
petgraph = "0.8"
smallvec = "1"
