[package]
name = "subforge"
version = "0.1.0"
edition = "2021"
publish = false

[dependencies]
sha2 = "0.10"
serde = { version = "1", features = ["derive"] }
serde_json = "1"
urlencoding = "2"
base64 = "0.22"
aes-gcm = "0.10"
getrandom = "0.3"
uuid = { version = "1", features = ["v4"] }
anyhow = "1"
log = "0.4"
which = "7"
zip = { version = "2", default-features = false, features = ["deflate"] }
reqwest = { version = "0.12", default-features = false, features = ["blocking", "json", "rustls-tls", "stream"] }
tokio = { version = "1", features = ["fs", "time", "rt", "io-util", "sync", "macros"] }
futures-util = "0.3"
sysinfo = "0.32"
nvml-wrapper = "0.10"
