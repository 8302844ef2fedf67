[package]
name = "carter"
version = "0.1.0"
edition = "2021"
publish = false

[dependencies]
anyhow = "=1.0.104"
arboard = { version = "=3.7.0", default-features = false, features = ["image-data"] }
async-trait = "=0.1.92"
clap = { version = "=4.6.7", features = ["derive"] }
clap_complete = "=4.6.11"
futures = "=0.3.34"
genai = "=0.7.2"
glob = "=0.3.4"
http = "=1.5.0"
image = { version = "=0.25.10", default-features = false, features = ["png"] }
libc = "=0.2.191"
reqwest = { version = "=0.12.28", default-features = false, features = ["rustls-tls", "json"] }
rmcp = { version = "=3.8.0", features = ["client", "transport-child-process", "transport-streamable-http-client-reqwest"] }
serde = { version = "=1.0.229", features = ["derive"] }
serde_json = { version = "=1.0.154", features = ["float_roundtrip", "preserve_order"] }
sha2 = "=0.10.9"
thiserror = "=2.0.21"
tiktoken-rs = "=0.12.1"
tokio = { version = "=1.54.1", features = ["full"] }
toml = "=1.1.8"
tracing = "=0.1.44"
tracing-subscriber = { version = "=0.3.23", features = ["env-filter"] }
uuid = { version = "=1.29.0", features = ["v4"] }
