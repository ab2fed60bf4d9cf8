[package]
name = "rust_tree"
version = "0.1.0"
edition = "2021"
publish = false

[dependencies]
glob = "0.3"
ansi_term = "0.12"
is_executable = "1"
clap = { version = "4", features = ["derive"] }
