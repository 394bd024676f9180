[package]
name = "wordkeep"
version = "0.2.0"
edition = "2021"
publish = false

[dependencies]
serde_json = "=1.0.154"
tree-sitter = "=0.27.1"
tree-sitter-c-sharp = "=0.23.5"
tree-sitter-cpp = "=0.23.4"
tree-sitter-glsl = "=0.2.0"
tree-sitter-language = "=0.1.9"
tree-sitter-python = "=0.25.0"
tree-sitter-rust = "=0.24.2"
tree-sitter-typescript = "=0.23.2"
fs2 = "=0.4.3"
fastembed = { version = "=7.5.0", default-features = false, features = ["hf-hub-rustls-tls", "ort-load-dynamic"] }
