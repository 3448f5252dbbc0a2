[package]
name = "alfred"
version = "0.1.0"
edition = "2021"
publish = false

[dependencies]
ropey = "1.6"
rust_lisp = "*"
thiserror = "*"
tree-sitter = "*"
tree-sitter-rust = "*"
tree-sitter-python = "*"
tree-sitter-javascript = "*"
streaming-iterator = "*"
crossterm = "*"

[dev-dependencies]
tempfile = "*"
