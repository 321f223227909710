[package]
name = "tdsl"
version = "0.1.0"
edition = "2021"
publish = false

[dependencies]
url = "=2.5.8"
reqwest = { version = "=0.12.28", default-features = false, features = ["json", "rustls-tls"] }
tokio = { version = "=1.54.1", features = ["rt-multi-thread", "macros", "time"] }
async-trait = "=0.1.92"
serde = { version = "=1.0.229", features = ["derive"] }
serde_json = "=1.0.154"
dirs = "=7.0.0"
tempfile = "=3.27.0"
thiserror = "=2.0.21"
resvg = "=0.45.1"
svg2pdf = "=0.13.0"
pdf-writer = "=0.12.1"
