[package]
name = "signal_relay"
version = "0.1.0"
edition = "2021"
publish = false

[dependencies]
tokio = { version = "=1.53.2", features = ["sync", "rt-multi-thread", "net", "io-util", "macros", "signal", "time"] }
tokio-util = { version = "=0.7.19", features = ["codec", "net"] }
futures-util = { version = "=0.3.34", features = ["sink"] }
clap = { version = "=4.6.7", features = ["derive"] }
env_logger = "=0.11.11"
