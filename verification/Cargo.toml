[package]
name = "xflags"
version = "0.4.0"
edition = "2021"
publish = false

[dependencies]
proc-macro2 = "1"
