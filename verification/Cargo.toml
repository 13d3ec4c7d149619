[package]
name = "hujingzhi"
version = "0.1.0"
edition = "2021"
publish = false

[dependencies]
anyhow = "1"
base64 = "0.21"
libc = "0.2"
rand = "0.8"
rcgen = "0.11"
reqwest = { version = "0.11", default-features = false, features = ["json", "rustls-tls"] }
serde = { version = "1", features = ["derive"] }
serde_json = "1"
serde_yaml = "0.9"
subtle = "2"
tokio = { version = "1", features = ["macros", "rt-multi-thread", "process", "time", "sync"] }
warp = { version = "0.3", features = ["tls"] }
