[package]
name = "mirascript-vm"
version = "0.1.0"
edition = "2021"
publish = false

[dependencies]
mirascript-core = "*"
indexmap = "2"
anyhow = "1"
thiserror = "2"
serde_json = "1"
unicode-normalization = "0.1"
