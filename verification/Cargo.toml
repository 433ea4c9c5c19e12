[package]
name = "repomonk"
version = "0.1.0"
edition = "2021"
publish = false

[dependencies]
sha2 = "0.10"
tree-sitter = "*"
tree-sitter-rust = "*"
tree-sitter-typescript = "*"
tree-sitter-javascript = "*"
tree-sitter-python = "*"
tree-sitter-go = "*"
toml = "*"
serde = { version = "1", features = ["derive"] }
chrono = "0.4"
clap = { version = "4", features = ["derive", "env"] }
crossterm = "*"
ratatui = "*"
rusqlite = { version = "*", features = ["bundled"] }
dirs = "*"
syntect = { version = "5", default-features = false, features = ["default-syntaxes", "default-themes", "regex-fancy"] }
thiserror = "*"
