[package]
name = "executorch_node"
version = "0.1.0"
edition = "2021"
publish = false

[dependencies]
libc = "0.2"
neon = "1"
