[package]
name = "epitech_style_checker"
version = "0.1.0"
edition = "2021"
publish = false

[dependencies]
regex = "1"
tree-sitter = "*"
tree-sitter-c = "*"
