[package]
name = "uclicious"
version = "0.1.0"
edition = "2021"
publish = false

[dependencies]
uclicious-libucl-sys = "*"
libc = "=0.2.191"
