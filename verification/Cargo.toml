[package]
name = "fluvio_wire"
version = "0.1.0"
edition = "2021"
publish = false

[dependencies]
anyhow = "=1.0.104"
fluvio-future = { version = "=0.8.3", features = ["fs", "timer"] }
futures-lite = "=1.13.0"
k8-client = "=15.0.1"
k8-config = { version = "=3.0.0", features = ["context"] }
k8-types = { version = "=0.10.0", features = ["core"] }
serde = { version = "=1.0.229", features = ["derive"] }
structopt = "=0.3.26"
tracing = "=0.1.44"
