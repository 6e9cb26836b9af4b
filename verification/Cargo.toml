[package]
name = "tensor-grep-rs"
version = "0.5.0"
edition = "2021"
publish = false

[dependencies]
anyhow = "=1.0.104"
arrow-array = "=59.3.1"
arrow-buffer = "=59.3.1"
clap = { version = "=4.6.7", features = ["derive"] }
ignore = "=0.4.33"
memchr = "=2.8.3"
memmap2 = "=0.9.12"
pyo3 = { version = "=0.30.1", features = ["auto-initialize"] }
pyo3-arrow = "=0.20.0"
rayon = "=1.12.0"
regex = "=1.13.1"
tree-sitter = "=0.27.1"
tree-sitter-python = "=0.25.0"
walkdir = "=2.5.0"
