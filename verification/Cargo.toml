[package]
name = "ur-io"
version = "0.1.0"
edition = "2021"
publish = false

[dependencies]
io-uring = "*"
libc = "*"
memmap2 = "*"
