[package]
name = "java_analyzer_provider"
version = "0.1.0"
edition = "2021"
publish = false

[dependencies]
tree-sitter = "*"
tree-sitter-java = "*"
quick-xml = "*"
regex = "*"
wildmatch = "*"
serde = { version = "*", features = ["derive"] }
serde_yaml = "*"
serde_json = "*"
anyhow = "*"
