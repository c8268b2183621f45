[package]
name = "seal_isa"
version = "0.1.0"
edition = "2021"

[dependencies]
fltk = "*"
num-format = "*"
num-traits = "0.2"
rand = "0.8"
rustc-hash = "*"
