[package]
name = "danbooru_tools"
version = "0.1.0"
edition = "2021"
publish = false

[dependencies]
url = "=2.5.8"
sha2 = "=0.10.9"
hex = "=0.4.3"
uuid = { version = "=1.29.0", features = ["v4"] }
serde = { version = "=1.0.229", features = ["derive"] }
serde_json = "=1.0.154"
walkdir = "=2.5.0"
md-5 = "=0.10.6"
base64 = "=0.22.1"
httpdate = "=1.0.3"
http = "=1.5.0"
tokio = { version = "=1.54.1", features = ["full"] }
reqwest = { version = "=0.12.28", default-features = false, features = ["json", "stream", "rustls-tls"] }
image = { version = "=0.25.10", default-features = false, features = ["png", "jpeg", "webp", "gif", "bmp"] }
ndarray = "=0.17.2"
ort = { version = "=2.0.0-rc.15", default-features = false, features = ["ndarray", "load-dynamic"] }
async-stream = "=0.3.6"
futures-core = "=0.3.34"
tracing = "=0.1.44"
axum = { version = "=0.8.9", default-features = false }
tempfile = "=3.27.0"
