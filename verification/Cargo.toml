[package]
name = "dada_execute"
version = "0.1.0"
edition = "2021"
publish = false

[dependencies]
html-escape = "*"
eq-float = "*"
eyre = "*"
