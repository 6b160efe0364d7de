[package]
name = "mete"
version = "0.1.0"
edition = "2021"
publish = false

[dependencies]
tree-sitter = "*"
tree-sitter-rust = "*"
tree-sitter-typescript = "*"
tree-sitter-javascript = "*"
tree-sitter-python = "*"
tree-sitter-go = "*"
tree-sitter-java = "*"
tree-sitter-c-sharp = "*"
tree-sitter-cpp = "*"
tree-sitter-elixir = "*"
clap = { version = "*", features = ["derive"] }
colored = "*"
glob = "*"
rayon = "*"
serde = { version = "*", features = ["derive"] }
serde_json = "*"
