[package]
name = "cuda_prim"
version = "0.1.0"
edition = "2021"
publish = false

[dependencies]
petgraph = { version = "=0.8.3", features = ["stable_graph"] }
cudarc = { version = "=0.19.10", default-features = false, features = ["std", "driver", "nvrtc", "dynamic-loading", "cuda-12040"] }
