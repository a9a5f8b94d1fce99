[package]
name = "weave-core"
version = "0.1.0"
edition = "2021"
publish = false

[dependencies]
diffy = "*"
sem-core = "*"
automerge = "*"
clap = { version = "*", features = ["derive"] }
colored = "*"
env_logger = "*"
rmcp = { version = "*", features = ["server", "transport-io"] }
schemars = "*"
serde = { version = "*", features = ["derive"] }
serde_json = "*"
thiserror = "*"
tokio = { version = "*", features = ["full"] }
tracing-subscriber = { version = "*", features = ["env-filter"] }
