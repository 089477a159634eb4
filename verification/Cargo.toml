[package]
name = "agent_laboratory"
version = "0.1.0"
edition = "2021"
publish = false

[dependencies]
serde_json = "*"
tiktoken-rs = "*"
url = "*"
tokio = { version = "*", features = ["rt-multi-thread", "macros", "time", "sync"] }
reqwest = { version = "*", default-features = false, features = ["json", "rustls-tls"] }
async-trait = "*"
serde = { version = "*", features = ["derive"] }
anyhow = "*"
thiserror = "*"
clap = { version = "*", features = ["derive", "env"] }
tracing = "*"
tracing-subscriber = "*"
quick-xml = "*"
tempfile = "*"
pdf-extract = "*"
