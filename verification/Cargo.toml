[package]
name = "diff_pipeline"
version = "0.1.0"
edition = "2021"
publish = false

[dependencies]
clap = "2"
futures = "0.3"
num_cpus = "1"
serde = { version = "1", features = ["derive"] }
serde_json = "1"
tokio = { version = "0.2", features = ["rt-threaded", "blocking", "io-std", "io-util", "sync", "macros", "stream"] }
