[package]
name = "kernel"
version = "0.1.0"
edition = "2021"
publish = false

[dependencies]
miette = "5"
notify-debouncer-mini = "0.2"
thiserror = "1"
tracing = "0.1"
tracing-subscriber = { version = "0.3", features = ["env-filter"] }
tree-sitter = "0.20"
