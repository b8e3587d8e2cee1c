[package]
name = "welove520"
version = "0.1.0"
edition = "2021"
publish = false

[dependencies]
md5 = "=0.8.1"
serde_json = "=1.0.151"
serde = { version = "=1.0.229", features = ["derive"] }
reqwest = { version = "=0.13.5", default-features = false, features = ["form", "json"] }
tokio = { version = "=1.53.2", features = ["macros", "rt-multi-thread", "time"] }
rand = "=0.10.3"
tracing = "=0.1.44"
tracing-subscriber = "=0.3.23"
