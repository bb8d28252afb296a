[package]
name = "minikv"
version = "0.1.0"
edition = "2021"
publish = false

[dependencies]
tokio = { version = "1", features = ["sync", "net", "io-util", "rt-multi-thread", "macros", "time"] }
clap = { version = "4", features = ["derive"] }
thiserror = "2"
