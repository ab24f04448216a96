[package]
name = "metrics_evaluation"
version = "0.1.0"
edition = "2021"
publish = false

[dependencies]
chrono = "0.4"
humantime = "2"
serde = "1"
