[package]
name = "inferno"
version = "0.1.0"
edition = "2021"
publish = false

[dependencies]
anyhow = "1"
candle-core = "0.9"
cudarc = { version = "0.16", default-features = false, features = ["std", "driver", "nvrtc", "cublas", "cublaslt", "f16", "dynamic-loading", "cuda-12080"] }
half = "2"
