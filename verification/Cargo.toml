[package]
name = "lazysom"
version = "0.1.0"
edition = "2021"
publish = false

[dependencies]
anyhow = "=1.0.104"
serde = { version = "=1.0.229", features = ["derive"] }
serde_json = "=1.0.154"
rmp-serde = "=1.3.1"
bincode = "=1.3.3"
clap = { version = "=4.6.7", features = ["derive"] }
num-bigint = "0.4"
num-integer = "0.1"
num-traits = "0.2"
