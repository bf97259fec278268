[package]
name = "io_arrays"
version = "0.1.0"
edition = "2021"
publish = false

[dependencies]
page_size = "*"
libc = "*"
tempfile = "*"
