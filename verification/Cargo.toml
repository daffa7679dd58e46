[package]
name = "comment_parser"
version = "0.1.0"
edition = "2021"
publish = false

[dependencies]
detect-lang = "0.1"
line-span = "0.1"
