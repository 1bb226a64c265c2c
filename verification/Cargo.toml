[package]
name = "aprendizaje_pesos"
version = "0.1.0"
edition = "2021"
publish = false

[dependencies]
rand = "0.4"
byteorder = "1"
clap = "2"
time = "0.1"
itertools = "*"
ordered-float = "*"
