[package]
name = "relon_ir"
version = "0.1.0"
edition = "2021"
publish = false

[dependencies]
ordered-float = "*"
tracing = "0.1"
