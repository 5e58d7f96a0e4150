[package]
name = "grok_box"
version = "0.1.0"
edition = "2021"
publish = false

[dependencies]
png = "*"
base64 = "*"
smallvec = "*"
arrayvec = "*"
serde = { version = "1", features = ["derive"] }
serde_json = "1"
thiserror = "*"
anyhow = "1"
tokio = { version = "1", features = ["full"] }
axum = "*"
http = "*"
bytes = "1"
futures-util = "*"
tokio-stream = "*"
tokio-tungstenite = "*"
tower-http = { version = "*", features = ["cors", "trace", "limit"] }
tracing = "*"
tracing-subscriber = { version = "*", features = ["env-filter"] }
clap = { version = "4", features = ["derive", "env"] }
libc = "*"
x11rb = { version = "*", features = ["xtest"] }
mimalloc = "*"
