[package]
name = "snek"
version = "0.1.0"
edition = "2021"
publish = false

[dependencies]
sexp = "1.1.4"
im = "15.1.0"
