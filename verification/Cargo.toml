[package]
name = "kernel_lex"
version = "0.1.0"
edition = "2021"
publish = false

[dependencies]
half = { version = "=2.7.1", features = ["num-traits"] }
num-traits = "=0.2.19"
