[package]
name = "veld_scanner"
version = "0.1.0"
edition = "2021"
publish = false

[dependencies]
tree-sitter = "=0.27.0"
tree-sitter-language = "=0.1.8"
