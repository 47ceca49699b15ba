[package]
name = "code_rag"
version = "0.1.0"
edition = "2021"
publish = false

[dependencies]
khroma = "*"
ollama-rs = "*"
reqwest = "*"
serde = { version = "1", features = ["derive"] }
serde_json = "1"
tokio = { version = "1", features = ["fs", "io-util", "macros", "rt-multi-thread"] }
tree-sitter = "*"
tree-sitter-c = "*"
tree-sitter-cpp = "*"
