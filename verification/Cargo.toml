[package]
name = "metric_sum"
version = "0.1.0"
edition = "2021"
publish = false

[dependencies]
opentelemetry = { version = "0.21", default-features = false, features = ["metrics"] }
