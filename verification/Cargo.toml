[package]
name = "intcode"
version = "0.1.0"
edition = "2021"
publish = false

[dependencies]
cranelift = "=0.68.0"
cranelift-module = "=0.68.0"
cranelift-simplejit = "=0.68.0"
