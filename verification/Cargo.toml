[package]
name = "cosparsers"
version = "0.1.0"
edition = "2021"
publish = false

[dependencies]
annotate-snippets = "=0.11.5"
codemap = "=0.1.3"
jsonc-parser = { version = "=0.34.0", features = ["preserve_order"] }
rnix = "=0.14.0"
pyo3 = "=0.23.5"
