[package]
name = "cargo_info_types"
version = "0.1.0"
edition = "2021"
publish = false

[dependencies]
strip-ansi-escapes = "*"
thiserror = "*"
