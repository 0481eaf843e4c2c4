[package]
name = "runtime_core"
version = "0.1.0"
edition = "2021"
publish = false

[dependencies]
anyhow = "1"
crossbeam = "0.8"
io-context = "0.2"
sha2 = "0.10"
slog = "2"
