[package]
name = "typst_analyzer"
version = "0.1.0"
edition = "2021"
publish = false

[dependencies]
typst-syntax = "=0.15.1"
tower-lsp = "=0.20.0"
anyhow = "=1.0.104"
regex = "*"
