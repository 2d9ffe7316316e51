[package]
name = "rote"
version = "0.1.0"
edition = "2021"
publish = false

[dependencies]
ropey = "1"
tree-sitter = "*"
tree-sitter-python = "*"
pyo3 = { version = "*", features = ["auto-initialize"] }
tokio = { version = "1", features = ["process", "io-util", "sync", "rt", "rt-multi-thread", "macros"] }
serde = "1"
serde_json = "1"
lsp-types = "*"
thiserror = "*"
anyhow = "1"
tracing = "0.1"
tracing-subscriber = "0.3"
pollster = "*"
bytemuck = { version = "1", features = ["derive"] }
wgpu = "*"
winit = "0.30"
glyphon = "*"
