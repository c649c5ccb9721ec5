[package]
name = "ftfrs_tracing"
version = "0.1.0"
edition = "2021"
publish = false

[dependencies]
parking_lot = "=0.12.5"
tracing-core = "=0.1.36"
tracing-subscriber = { version = "=0.3.23", default-features = false, features = ["std", "fmt", "registry"] }
