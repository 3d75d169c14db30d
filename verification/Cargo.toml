[package]
name = "wgsl_preprocessor"
version = "0.1.0"
edition = "2021"
publish = false

[dependencies]
unicode-ident = "*"
naga = { version = "*", features = ["wgsl-in"] }
