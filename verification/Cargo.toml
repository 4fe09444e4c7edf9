[package]
name = "kvs"
version = "0.1.0"
edition = "2021"
publish = false

[dependencies]
clap = "*"
crossbeam-channel = "*"
slog = "*"
slog-async = "*"
slog-json = "*"
