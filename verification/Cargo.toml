[package]
name = "torch_jit"
version = "0.1.0"
edition = "2021"
publish = false

[dependencies]
failure = "0.1"
libc = "0.2"
torch-sys = "*"
