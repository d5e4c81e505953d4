[package]
name = "scanflow"
version = "0.3.0"
edition = "2021"
publish = false

[dependencies]
anyhow = "1"
clap = { version = "=4.6.7", features = ["derive"] }
dashmap = "=6.2.1"
either = "=1.19.0"
hex = "=0.4.3"
libc = "0.2"
log = "=0.4.35"
memchr = "=2.8.3"
memflow = { version = "=0.2.4", features = ["dummy_mem"] }
rmcp = { version = "=3.8.0", features = ["server", "macros", "transport-io", "schemars"] }
rustyline = { version = "=18.0.1", features = ["derive"] }
serde = { version = "1", features = ["derive"] }
serde_json = "1"
simplelog = "=0.12.2"
tokio = { version = "1", features = ["rt-multi-thread", "macros", "sync", "io-std"] }
tracing = "0.1"
tracing-subscriber = { version = "0.3", features = ["env-filter"] }
uuid = { version = "=1.29.0", features = ["v4"] }
