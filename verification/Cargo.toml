[package]
name = "lil_syntax"
version = "0.1.0"
edition = "2021"
publish = false

[dependencies]
chumsky = "1.0.0-alpha.7"
colored = "2"
ariadne = "0.5"
