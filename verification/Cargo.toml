[package]
name = "neorg_syntax"
version = "0.1.0"
edition = "2021"
publish = false

[dependencies]
anyhow = "1"
ecow = "0.2"
ropey = "1"
thiserror = "1"
tower-lsp = "0.20"
