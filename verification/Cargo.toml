[package]
name = "pgwhy"
version = "0.1.0"
edition = "2021"
publish = false

[dependencies]
duckdb = "*"
tokio = { version = "*", features = ["rt-multi-thread", "net", "io-util", "macros"] }
