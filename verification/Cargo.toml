[package]
name = "durduff"
version = "0.1.0"
edition = "2021"
publish = false

[dependencies]
percent-encoding = "*"
clap = "2"
libc = "*"
