[package]
name = "code_rag"
version = "0.1.0"
edition = "2021"
publish = false

[dependencies]
tree-sitter = "*"
tree-sitter-rust = "*"
tree-sitter-python = "*"
tree-sitter-go = "*"
tree-sitter-c = "*"
tree-sitter-cpp = "*"
tree-sitter-javascript = "*"
tree-sitter-typescript = "*"
tree-sitter-java = "*"
tree-sitter-c-sharp = "*"
tree-sitter-ruby = "*"
tree-sitter-php = "*"
tree-sitter-html = "*"
tree-sitter-css = "*"
tree-sitter-bash = "*"
tree-sitter-powershell = "*"
tree-sitter-yaml = "*"
tree-sitter-json = "*"
tree-sitter-zig = "*"
tree-sitter-elixir = "*"
tree-sitter-haskell = "*"
tree-sitter-solidity = "*"
tiktoken-rs = "*"
anyhow = "1"
serde = { version = "1", features = ["derive"] }
serde_json = "1"
tokio = { version = "1", features = ["full"] }
axum = "*"
dashmap = "*"
tantivy = "*"
