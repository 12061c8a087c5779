[package]
name = "kotlingen"
version = "0.1.0"
edition = "2021"
publish = false

[dependencies]
tree-sitter = "0.20"
tree-sitter-java = "0.20"
gtmpl = "*"
gtmpl_value = "*"
gtmpl_derive = "*"
log = "*"
env_logger = "*"
