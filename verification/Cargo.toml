[package]
name = "megascops"
version = "0.1.0"
edition = "2021"
publish = false

[dependencies]
anyhow = "=1.0.104"
async-stream = "=0.3.6"
chrono = "=0.4.45"
crossbeam-channel = "=0.5.17"
csv = "=1.4.0"
fast_image_resize = { version = "=6.1.0", features = ["image"] }
ffmpeg-sidecar = { version = "=2.7.0", default-features = false }
image = { version = "=0.25.10", default-features = false, features = ["jpeg", "png"] }
jpeg-decoder = { version = "=0.3.2", features = ["platform_independent"] }
nom-exif = "=3.8.0"
prost = "=0.13.5"
rayon = "=1.12.0"
serde = { version = "=1.0.229", features = ["derive"] }
serde_json = "=1.0.154"
thiserror = "=1.0.69"
tonic = { version = "=0.12.3", features = ["tls"] }
tracing = "=0.1.44"
tracing-appender = "=0.2.5"
tracing-error = "=0.2.1"
tracing-subscriber = { version = "=0.3.23", features = ["env-filter", "local-time"] }
url = "=2.5.8"
uuid = { version = "=1.29.0", features = ["v4"] }
webp = "=0.3.1"
