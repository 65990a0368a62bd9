[package]
name = "mining_coordinator"
version = "0.1.0"
edition = "2021"
publish = false

[dependencies]
log = "=0.4.34"
tokio = { version = "=1.54.1", features = ["macros", "rt-multi-thread", "sync", "time"] }
