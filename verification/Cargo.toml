[package]
name = "dap_view_model"
version = "0.1.0"
edition = "2021"
publish = false

[dependencies]
im = "=15.1.0"
lapce-rpc = "0.2.1"
lsp-types = "*"
