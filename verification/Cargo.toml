[package]
name = "buzzcode"
version = "0.1.0"
edition = "2021"
publish = false

[dependencies]
blake3 = "=1.8.7"
clap = { version = "=4.6.7", features = ["derive"] }
eventsource-stream = "=0.2.3"
futures = "=0.3.34"
humantime = "2"
ignore = "=0.4.34"
lru = "=0.19.0"
nucleo-matcher = "=0.3.1"
postcard = { version = "=1.1.3", features = ["use-std"] }
redb = "=4.4.0"
regex = "=1.13.1"
reqwest = { version = "=0.13.5", default-features = false, features = ["json", "stream"] }
rmcp = { version = "*", default-features = false, features = ["client", "transport-child-process"] }
serde = { version = "=1.0.229", features = ["derive"] }
serde_json = { version = "=1.0.154", features = ["preserve_order"] }
sha2 = "=0.11.1"
tokio = { version = "=1.54.1", features = ["full"] }
toml = "=1.1.8+spec-1.1.0"
tree-sitter = "=0.27.1"
tree-sitter-c = "=0.24.2"
tree-sitter-cpp = "=0.23.4"
tree-sitter-go = "=0.25.0"
tree-sitter-java = "=0.23.5"
tree-sitter-javascript = "=0.25.0"
tree-sitter-json = "=0.24.8"
tree-sitter-md = "=0.5.4"
tree-sitter-python = "=0.25.0"
tree-sitter-rust = "=0.24.2"
tree-sitter-toml-ng = "=0.7.0"
tree-sitter-typescript = "=0.23.2"
