[package]
name = "oxibrowser"
version = "0.1.0"
edition = "2021"
publish = false

[dependencies]
anyhow = "=1.0.104"
anyrender = "=0.6.2"
anyrender_vello_cpu = "0.8"
async-trait = "=0.1.92"
base64 = "=0.22.1"
blitz-dom = { version = "=0.2.4", default-features = false, features = ["system_fonts"] }
blitz-html = "=0.2.0"
blitz-paint = { version = "=0.2.1", default-features = false }
blitz-traits = "=0.2.0"
boa_engine = "=0.20.0"
futures = { version = "=0.3.34", default-features = false, features = ["std"] }
hyper = { version = "=1.12.0", features = ["http1", "server"] }
hyper-util = { version = "=0.1.21", features = ["tokio"] }
krilla = "=0.8.2"
linebender_resource_handle = "=0.1.1"
parking_lot = "=0.12.5"
parley = "=0.6.0"
peniko = "=0.5.0"
png = "=0.18.1"
reqwest = { version = "=0.12.28", default-features = false }
serde_json = "=1.0.154"
stylo = "=0.8.0"
thiserror = "=2.0.21"
tokio = { version = "=1.54.1", features = ["macros", "rt", "sync", "time"] }
tokio-tungstenite = "=0.30.0"
tracing = "=0.1.44"
url = "=2.5.8"
uuid = { version = "=1.29.0", features = ["v4"] }
