[package]
name = "dione"
version = "0.1.0"
edition = "2021"
publish = false

[dependencies]
arc-swap = "=1.9.3"
camino = "=1.2.6"
chrono = { version = "=0.4.45", default-features = false, features = ["alloc", "clock", "serde", "std"] }
clap = { version = "=4.6.7", default-features = false, features = ["derive", "std"] }
futures-util = { version = "=0.3.34", default-features = false, features = ["std"] }
mitex = "=0.2.4"
reqwest = { version = "=0.12.28", default-features = false, features = ["json", "stream"] }
serde = { version = "=1.0.229", features = ["derive"] }
serde_json = "=1.0.154"
serde_yaml = "0.9"
serenity = { version = "=0.12.5", default-features = false, features = ["builder", "chrono", "client", "gateway", "http", "model", "rustls_backend"] }
tempfile = "=3.27.0"
tokio = { version = "=1.54.1", features = ["fs", "io-std", "io-util", "macros", "rt", "sync", "time"] }
tracing = { version = "0.1", default-features = false, features = ["std"] }
uuid = { version = "=1.29.0", default-features = false, features = ["std"] }
