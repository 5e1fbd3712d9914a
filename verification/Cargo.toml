[package]
name = "color_api"
version = "0.1.0"
edition = "2021"
publish = false

[dependencies]
flate2 = "1"
axum = { version = "*", features = ["multipart"] }
image = { version = "*", default-features = false, features = ["jpeg", "png", "gif", "webp", "bmp", "tiff"] }
lru = "*"
okmain = "*"
rgb = "*"
serde = { version = "1", features = ["derive"] }
serde_json = "1"
tokio = { version = "1", features = ["full"] }
tower-http = { version = "*", features = ["cors", "fs"] }
tracing = "*"
tracing-subscriber = { version = "*", features = ["env-filter"] }
uuid = { version = "1", features = ["v4"] }
