[package]
name = "inkdrop"
version = "0.1.0"
edition = "2021"
publish = false

[dependencies]
axum = { version = "0.8", features = ["multipart"] }
bytes = "1"
clap = { version = "4", features = ["derive"] }
futures-util = "0.3"
http = "1"
image = { version = "*", default-features = false, features = ["png"] }
ipp = "*"
mdns-sd = "*"
num-traits = "0.2"
pdfium-render = "*"
serde = { version = "1", features = ["derive"] }
thiserror = "2"
tokio = { version = "1", features = ["full"] }
tokio-stream = { version = "0.1", features = ["sync"] }
tower-http = { version = "0.6", features = ["fs"] }
tracing = "0.1"
tracing-subscriber = { version = "0.3", features = ["env-filter"] }
