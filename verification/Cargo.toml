[package]
name = "lethal_manager"
version = "0.1.0"
edition = "2021"
publish = false

[dependencies]
regex = "1"
textdistance = "1"
zip = { version = "0.6", default-features = false, features = ["deflate"] }
serde = { version = "1", features = ["derive"] }
serde_json = "1"
serde_yaml = "0.9"
chrono = { version = "0.4", features = ["serde"] }
glob = "0.3"
directories = "5"
image-base64 = "0.1"
sysinfo = "0.30"
tokio = { version = "1", features = ["rt-multi-thread", "macros", "sync"] }
reqwest = { version = "0.11", default-features = false, features = ["rustls-tls", "stream"] }
futures-util = "0.3"
