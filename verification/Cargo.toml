[package]
name = "live_compiler"
version = "0.1.0"
edition = "2021"
publish = false

[dependencies]
makepad-live-tokenizer = "*"
