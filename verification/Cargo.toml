[package]
name = "donglora-mux"
version = "1.0.1"
edition = "2021"
publish = false

[dependencies]
anyhow = "=1.0.104"
donglora-protocol = { version = "=1.2.0", default-features = false }
fd-lock = "=4.0.4"
heapless = "=0.9.3"
tokio = { version = "=1.54.1", features = ["fs", "io-util", "macros", "net", "rt-multi-thread", "sync", "time"] }
tokio-serial = "=5.5.0"
tokio-util = "=0.7.20"
tracing = "=0.1.44"
