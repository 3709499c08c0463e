[package]
name = "monkeyc-fmt"
version = "0.1.0"
edition = "2021"
publish = false

[dependencies]
tree-sitter = "*"
tree-sitter-monkeyc = "*"
pretty = "*"
clap = { version = "4", features = ["derive"] }
tempfile = "3"
