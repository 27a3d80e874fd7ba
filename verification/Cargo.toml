[package]
name = "cirrus"
version = "0.1.0"
edition = "2021"
publish = false

[dependencies]
base64 = "0.22"
bytes = "1"
chrono = { version = "0.4", features = ["serde"] }
dashmap = "6"
md-5 = "0.10"
sha2 = "0.10"
urlencoding = "2"
uuid = { version = "1", features = ["v4"] }
async-trait = "0.1"
axum = "0.7"
http = "1"
http-body-util = "0.1"
quick-xml = { version = "0.37", features = ["serialize"] }
serde = { version = "1", features = ["derive"] }
thiserror = "1"
tracing = "0.1"
