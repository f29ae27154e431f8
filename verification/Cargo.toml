[package]
name = "zim"
version = "0.1.0"
edition = "2021"
publish = false

[dependencies]
xz2 = "0.1"
md-5 = "*"
memmap = "0.7"
clap = "*"
