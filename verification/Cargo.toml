[package]
name = "gmailrs"
version = "0.1.0"
edition = "2021"
publish = false

[dependencies]
anyhow = "=1.0.104"
google-gmail1 = "=7.0.0"
html2text = "=0.17.4"
mcp-core = { version = "=0.1.50", features = ["sse"] }
mcp-core-macros = "=0.1.30"
schemars = "=0.8.22"
serde = { version = "=1.0.229", features = ["derive"] }
serde_json = "=1.0.154"
tokio = { version = "=1.54.1", features = ["full"] }
tracing = "=0.1.44"
tracing-subscriber = "=0.3.23"
yup-oauth2 = "=12.1.2"

[dev-dependencies]
regex = "=1.13.1"
