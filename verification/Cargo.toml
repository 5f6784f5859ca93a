[package]
name = "quit"
version = "2.0.0"
edition = "2021"
publish = false

[dependencies]
proc-macro2 = "1"
