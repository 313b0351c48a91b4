[package]
name = "agent_stream_kit"
version = "0.1.0"
edition = "2021"
publish = false

[dependencies]
serde = { version = "=1.0.229", features = ["derive"] }
serde_json = "=1.0.154"
thiserror = "=2.0.21"
tokio = { version = "=1.54.1", features = ["rt-multi-thread", "sync", "macros", "time"] }
log = "=0.4.35"
async-trait = "=0.1.92"
futures = "=0.3.34"
tokio-stream = "=0.1.19"
uuid = { version = "=1.29.0", features = ["v4"] }
handlebars = "=6.4.4"
serde_yaml_ng = "=0.10.0"
rhai = { version = "=1.27.0", features = ["sync"] }
