[package]
name = "yggdrasil"
version = "0.1.0"
edition = "2021"
publish = false

[dependencies]
convert_case = "*"
indexmap = "*"
pest = "*"
regex-automata = "*"
serde = { version = "*", features = ["derive"] }
json5 = "*"
lsp-types = "*"
url = "*"
tree-sitter = "*"
