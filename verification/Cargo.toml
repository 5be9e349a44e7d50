[package]
name = "xz"
version = "0.4.6"
edition = "2021"
publish = false

[dependencies]
liblzma-sys = { version = "=0.4.9", features = ["static"] }
num_cpus = "=1.17.0"
libc = "=0.2.191"
