[package]
name = "lci_codegraph"
version = "0.1.0"
edition = "2021"
publish = false

[dependencies]
tree-sitter = "0.26"
tree-sitter-rust = "*"
tree-sitter-java = "*"
tree-sitter-javascript = "*"
tree-sitter-json = "*"
tree-sitter-scala = "*"
tree-sitter-swift = "*"
tree-sitter-jinja2 = "*"
tree-sitter-postgres = "*"
tree-sitter-cstack = "*"
ignore = "*"
ureq = "3"
serde = { version = "1", features = ["derive"] }
serde_json = "1"
anyhow = "1"

[dev-dependencies]
tempfile = "3"
